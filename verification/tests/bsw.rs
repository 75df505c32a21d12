use rabe::bsw::CpAbeCiphertext;
use rabe::bsw::CpAbeSecretKey;
use rabe::bsw::decrypt;
use rabe::bsw::delegate;
use rabe::bsw::encrypt;
use rabe::bsw::keygen;
use rabe::bsw::setup;

#[test]
fn test_or() {
    // setup scheme
    let (pk, msk) = setup();
    // a set of two attributes matching the policy
    let mut att_matching: Vec<String> = Vec::new();
    att_matching.push(String::from("D"));
    att_matching.push(String::from("B"));

    // a set of two attributes NOT matching the policy
    let mut att_not_matching: Vec<String> = Vec::new();
    att_not_matching.push(String::from("C"));
    att_not_matching.push(String::from("D"));

    // our plaintext
    let plaintext = String::from("dance like no one's watching, encrypt like everyone is!")
        .into_bytes();

    // our policy
    let policy = String::from(r#"{"OR": [{"ATT": "A"}, {"ATT": "B"}]}"#);

    // cp-abe ciphertext
    let ct_cp: CpAbeCiphertext = encrypt(&pk, &policy, &plaintext).unwrap();

    // and now decrypt again with matching sk
    let _match = decrypt(&keygen(&pk, &msk, &att_matching).unwrap(), &ct_cp);
    assert_eq!(_match.is_some(), true);
    assert_eq!(_match.unwrap(), plaintext);

    let _no_match = decrypt(&keygen(&pk, &msk, &att_not_matching).unwrap(), &ct_cp);
    assert_eq!(_no_match.is_none(), true);
}

#[test]
fn test_and() {
    // setup scheme
    let (pk, msk) = setup();
    // a set of three attributes matching the policy
    let mut att_matching: Vec<String> = Vec::new();
    att_matching.push(String::from("A"));
    att_matching.push(String::from("B"));
    att_matching.push(String::from("C"));

    // a set of two attributes NOT matching the policy
    let mut att_not_matching: Vec<String> = Vec::new();
    att_not_matching.push(String::from("A"));
    att_not_matching.push(String::from("D"));

    // our plaintext
    let plaintext = String::from("dance like no one's watching, encrypt like everyone is!")
        .into_bytes();

    // our policy
    let policy = String::from(r#"{"AND": [{"ATT": "A"}, {"ATT": "B"}]}"#);

    // cp-abe ciphertext
    let ct_cp: CpAbeCiphertext = encrypt(&pk, &policy, &plaintext).unwrap();

    // and now decrypt again with matching sk
    let _match = decrypt(&keygen(&pk, &msk, &att_matching).unwrap(), &ct_cp);
    assert_eq!(_match.is_some(), true);
    assert_eq!(_match.unwrap(), plaintext);
    let _no_match = decrypt(&keygen(&pk, &msk, &att_not_matching).unwrap(), &ct_cp);
    assert_eq!(_no_match.is_none(), true);
}

#[test]
fn test_or_and() {
    // setup scheme
    let (pk, msk) = setup();
    // a set of four attributes matching the policy
    let mut att_matching: Vec<String> = Vec::new();
    att_matching.push(String::from("A"));
    att_matching.push(String::from("B"));
    att_matching.push(String::from("C"));
    att_matching.push(String::from("D"));

    // a set of two attributes NOT matching the policy
    let mut att_not_matching: Vec<String> = Vec::new();
    att_not_matching.push(String::from("A"));
    att_not_matching.push(String::from("C"));

    // our plaintext
    let plaintext = String::from("dance like no one's watching, encrypt like everyone is!")
        .into_bytes();

    // our policy
    let policy = String::from(
        r#"{"OR": [{"AND": [{"ATT": "A"}, {"ATT": "B"}]}, {"AND": [{"ATT": "C"}, {"ATT": "D"}]}]}"#,
    );

    // cp-abe ciphertext
    let ct_cp: CpAbeCiphertext = encrypt(&pk, &policy, &plaintext).unwrap();

    // and now decrypt again with matching sk
    let _match = decrypt(&keygen(&pk, &msk, &att_matching).unwrap(), &ct_cp);
    assert_eq!(_match.is_some(), true);
    assert_eq!(_match.unwrap(), plaintext);
    let _no_match = decrypt(&keygen(&pk, &msk, &att_not_matching).unwrap(), &ct_cp);
    assert_eq!(_no_match.is_none(), true);
}

#[test]
fn test_delegate() {
    // setup scheme
    let (pk, msk) = setup();
    // a set of three attributes matching the policy
    let mut _atts: Vec<String> = Vec::new();
    _atts.push(String::from("A"));
    _atts.push(String::from("B"));
    _atts.push(String::from("C"));
    // a set of two delegated attributes
    let mut _delegate_att: Vec<String> = Vec::new();
    _delegate_att.push(String::from("A"));
    _delegate_att.push(String::from("B"));
    // our plaintext
    let plaintext = String::from("dance like no one's watching, encrypt like everyone is!")
        .into_bytes();
    // our policy
    let policy = String::from(r#"{"AND": [{"ATT": "A"}, {"ATT": "B"}]}"#);
    // cp-abe ciphertext
    let ct_cp: CpAbeCiphertext = encrypt(&pk, &policy, &plaintext).unwrap();
    // a cp-abe SK key matching
    let sk: CpAbeSecretKey = keygen(&pk, &msk, &_atts).unwrap();
    // delegate a cp-abe SK
    let del: CpAbeSecretKey = delegate(&pk, &sk, &_delegate_att).unwrap();
    // and now decrypt again with matching sk
    let _match = decrypt(&del, &ct_cp);
    assert_eq!(_match.is_some(), true);
    assert_eq!(_match.unwrap(), plaintext);
}

// A delegated key and a freshly issued key for the same subset open the same
// ciphertext to the same payload.
#[test]
fn test_delegate_matches_fresh_key() {
    let (pk, msk) = setup();
    let atts = vec![String::from("A"), String::from("B"), String::from("C")];
    let subset = vec![String::from("A"), String::from("B")];
    let plaintext = String::from("dance like no one's watching, encrypt like everyone is!")
        .into_bytes();
    let policy = String::from(r#"{"AND": [{"ATT": "A"}, {"ATT": "B"}]}"#);
    let ct = encrypt(&pk, &policy, &plaintext).unwrap();
    let sk = keygen(&pk, &msk, &atts).unwrap();
    let delegated = delegate(&pk, &sk, &subset).unwrap();
    let fresh = keygen(&pk, &msk, &subset).unwrap();
    let via_delegated = decrypt(&delegated, &ct).unwrap();
    let via_fresh = decrypt(&fresh, &ct).unwrap();
    assert_eq!(via_delegated, via_fresh);
    assert_eq!(via_delegated, plaintext);
}

// Two keys that only jointly cover the policy cannot decrypt, separately or
// with their attribute entries mixed into one key.
#[test]
fn test_collusion_mix() {
    let (pk, msk) = setup();
    let policy = String::from(r#"{"AND": [{"ATT": "A"}, {"ATT": "B"}]}"#);
    let plaintext = String::from("dance like no one's watching, encrypt like everyone is!")
        .into_bytes();
    let ct = encrypt(&pk, &policy, &plaintext).unwrap();
    let sk1 = keygen(&pk, &msk, &vec![String::from("A")]).unwrap();
    let sk2 = keygen(&pk, &msk, &vec![String::from("B")]).unwrap();
    assert!(decrypt(&sk1, &ct).is_none());
    assert!(decrypt(&sk2, &ct).is_none());
    let mut d1 = sk1._d_j;
    let mut d2 = sk2._d_j;
    let mut mixed_attrs = Vec::new();
    mixed_attrs.push(d1.remove(0));
    mixed_attrs.push(d2.remove(0));
    let mixed = CpAbeSecretKey { _d: sk1._d, _d_j: mixed_attrs };
    assert!(decrypt(&mixed, &ct).is_none());
}

// Input validation: empty attribute sets, empty payloads, empty or foreign
// delegation subsets, and malformed policies are rejected.
#[test]
fn test_misuse_is_rejected() {
    let (pk, msk) = setup();
    let empty_attrs: Vec<String> = Vec::new();
    assert!(keygen(&pk, &msk, &empty_attrs).is_none());

    let policy = String::from(r#"{"OR": [{"ATT": "A"}, {"ATT": "B"}]}"#);
    let empty_payload: Vec<u8> = Vec::new();
    assert!(encrypt(&pk, &policy, &empty_payload).is_none());

    let payload = vec![1u8, 2u8, 3u8];
    let one_child = String::from(r#"{"OR": [{"ATT": "A"}]}"#);
    assert!(encrypt(&pk, &one_child, &payload).is_none());
    let unknown_gate = String::from(r#"{"NOR": [{"ATT": "A"}, {"ATT": "B"}]}"#);
    assert!(encrypt(&pk, &unknown_gate, &payload).is_none());
    let empty_name = String::from(r#"{"ATT": ""}"#);
    assert!(encrypt(&pk, &empty_name, &payload).is_none());

    let sk = keygen(&pk, &msk, &vec![String::from("A"), String::from("B")]).unwrap();
    let empty_subset: Vec<String> = Vec::new();
    assert!(delegate(&pk, &sk, &empty_subset).is_none());
    let foreign = vec![String::from("A"), String::from("Z")];
    assert!(delegate(&pk, &sk, &foreign).is_none());
}
