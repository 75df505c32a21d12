use rabe::envelope::open_symmetric;
use rabe::envelope::seal_symmetric;
use rabe::parser::parse_policy;
use rabe::scalar::Scalar;
use rabe::scalar::random_scalar;
use rabe::scalar::scalar_from_u64;
use rabe::secretsharing::calc_coefficients_str;
use rabe::secretsharing::polynomial;
use rabe::secretsharing::recover_coefficients;
use rabe::secretsharing::calc_pruned_str;
use rabe::secretsharing::gen_shares;
use rabe::secretsharing::gen_shares_json;
use rabe::secretsharing::gen_shares_str;
use rabe::secretsharing::recover_secret;

fn dup(s: &Scalar) -> Scalar {
    Scalar { b: s.b.clone() }
}

#[test]
fn test_secret_sharing_or() {
    // OR
    let _secret = random_scalar();
    let _shares = gen_shares(&_secret, 1, 2);
    let _k = dup(&_shares[0]);
    let mut _input: Vec<Scalar> = Vec::new();
    _input.push(dup(&_shares[1]));
    let _reconstruct = recover_secret(
        _input,
        &String::from(r#"{"OR": [{"ATT": "A"}, {"ATT": "B"}]}"#),
    );
    assert!(_k.b == _reconstruct.unwrap().b);
}

#[test]
fn test_gen_shares_json() {
    // OR
    let _secret = random_scalar();
    let _policy = String::from(
        r#"{"AND": [{"ATT": "A"}, {"ATT": "B"}, {"ATT": "C"}, {"ATT": "D"}]}"#,
    );
    let _json = parse_policy(_policy.as_str()).unwrap();
    let _shares = gen_shares_json(&_secret, &_json).unwrap();
    let _coeff = calc_coefficients_str(&_policy).unwrap();
    for _s in _shares {
        println!("_shares: {:?}", _s.0);
    }
    for _c in _coeff {
        println!("_coeff: {:?}", _c.0);
    }
}

#[test]
fn test_secret_sharing_and() {
    // AND
    let _secret = random_scalar();
    let _shares = gen_shares(&_secret, 2, 2);
    let _k = dup(&_shares[0]);
    let mut _input: Vec<Scalar> = Vec::new();
    _input.push(dup(&_shares[1]));
    _input.push(dup(&_shares[2]));
    let _reconstruct = recover_secret(
        _input,
        &String::from(r#"{"AND": [{"ATT": "A"}, {"ATT": "B"}]}"#),
    );
    assert!(_k.b == _reconstruct.unwrap().b);
}

#[test]
fn test_pruning() {
    // a set of two attributes
    let mut _attributes: Vec<String> = Vec::new();
    _attributes.push(String::from("3"));
    _attributes.push(String::from("4"));

    let _result1 = calc_pruned_str(
        &_attributes,
        &String::from(r#"{"OR": [{"AND": [{"ATT": "1"}, {"ATT": "2"}]}, {"AND": [{"ATT": "3"}, {"ATT": "4"}]}]}"#),
    );
    let _result2 = calc_pruned_str(
        &_attributes,
        &String::from(
            r#"{"OR": [{"ATT": "3"}, {"AND": [{"ATT": "4"}, {"ATT": "5"}]}]}"#,
        ),
    );
    let _result3 = calc_pruned_str(
        &_attributes,
        &String::from(r#"{"AND": [{"AND": [{"ATT": "1"}, {"ATT": "2"}]}, {"AND": [{"ATT": "3"}, {"ATT": "4"}]}]}"#),
    );

    let (_match1, _list1) = _result1.unwrap();
    assert!(_match1 == true);
    assert!(_list1 == vec![String::from("3"), String::from("4")]);

    let (_match2, _list2) = _result2.unwrap();
    assert!(_match2 == true);
    assert!(_list2 == vec![String::from("3")]);

    let (_match3, _list3) = _result3.unwrap();
    assert!(_match3 == false);
    assert!(_list3.is_empty() == true);
}

// Sharing down a policy tree and recovering with the leaf coefficients gives
// the root secret back: a four-way gate where all shares are required.
#[test]
fn test_tree_sharing_roundtrip() {
    let secret = random_scalar();
    let policy = String::from(
        r#"{"AND": [{"ATT": "A"}, {"ATT": "B"}, {"ATT": "C"}, {"ATT": "D"}]}"#,
    );
    let shares = gen_shares_str(&secret, &policy).unwrap();
    assert_eq!(shares.len(), 4);
    let names: Vec<String> = shares.iter().map(|p| p.0.clone()).collect();
    assert_eq!(
        names,
        vec![String::from("A"), String::from("B"), String::from("C"), String::from("D")]
    );
    let values: Vec<Scalar> = shares.iter().map(|p| dup(&p.1)).collect();
    let reconstruct = recover_secret(values, &policy).unwrap();
    assert_eq!(secret.b, reconstruct.b);
}

// The sealed envelope opens back to the payload under the same key material,
// and rejects a tampered blob or foreign key material.
#[test]
fn test_envelope_roundtrip() {
    let key = vec![7u8, 13u8, 42u8, 0u8, 255u8];
    let data = String::from("dance like no one's watching, encrypt like everyone is!")
        .into_bytes();
    let blob = seal_symmetric(&key, &data);
    assert_eq!(blob.len(), data.len() + 80);
    // the enciphered payload differs from the plain one
    assert!(blob[16..16 + data.len()].to_vec() != data);
    assert_eq!(open_symmetric(&key, &blob), Some(data.clone()));

    let mut tampered = blob.clone();
    tampered[20] ^= 1;
    assert_eq!(open_symmetric(&key, &tampered), None);

    let other_key = vec![8u8, 13u8, 42u8, 0u8, 255u8];
    assert_eq!(open_symmetric(&other_key, &blob), None);
}

// The policy grammar: blanks are tolerated, and every other shape is refused.
#[test]
fn test_parse_policy_shapes() {
    assert!(parse_policy(r#"  { "OR" : [ {"ATT": "A"} , {"ATT": "B"} ] }  "#).is_some());
    assert!(parse_policy(r#"{"ATT": "A"}"#).is_some());
    assert!(parse_policy(r#"{"OR": [{"ATT": "A"}]}"#).is_none());
    assert!(parse_policy(r#"{"AND": []}"#).is_none());
    assert!(parse_policy(r#"{"ATT": ""}"#).is_none());
    assert!(parse_policy(r#"{"ATT": "A"} trailing"#).is_none());
    assert!(parse_policy(r#"["OR"]"#).is_none());
    assert!(parse_policy("").is_none());
}

// Escaped quotes and backslashes in names are decoded; other escapes are
// refused.
#[test]
fn test_parse_policy_escapes() {
    let t = parse_policy(r#"{"ATT": "a\"b"}"#).unwrap();
    match t {
        rabe::policy::PolicyNode::Leaf(name) => assert_eq!(name, String::from("a\"b")),
        _ => panic!(),
    }
    let t2 = parse_policy(r#"{"ATT": "a\\b"}"#).unwrap();
    match t2 {
        rabe::policy::PolicyNode::Leaf(name) => assert_eq!(name, String::from("a\\b")),
        _ => panic!(),
    }
    assert!(parse_policy(r#"{"ATT": "a\nb"}"#).is_none());
}

// A malformed policy makes pruning report the malformation, not a decision.
#[test]
fn test_pruning_malformed() {
    let attrs = vec![String::from("A")];
    assert!(calc_pruned_str(&attrs, &String::from(r#"{"OR": [{"ATT": "A"}]}"#)).is_none());
    assert!(calc_pruned_str(&attrs, &String::from("not a policy")).is_none());
}

// The Lagrange basis coefficients at zero for the points one and two are two
// and minus one (the group order less one).
#[test]
fn test_recover_coefficients_pair() {
    let xs = vec![scalar_from_u64(1), scalar_from_u64(2)];
    let lam = recover_coefficients(&xs);
    assert_eq!(lam.len(), 2);
    assert_eq!(lam[0].b, scalar_from_u64(2).b);
    let order = num_bigint::BigUint::parse_bytes(
        b"21888242871839275222246405745257275088548364400416034343698204186575808495617",
        10,
    )
    .unwrap();
    let minus_one = (order - 1u32).to_bytes_be();
    let mut expected = vec![0u8; 32 - minus_one.len()];
    expected.extend_from_slice(&minus_one);
    assert_eq!(lam[1].b, expected);
}

// Polynomial evaluation in the field: 3 + 4 x at x = 2 is 11.
#[test]
fn test_polynomial_eval() {
    let coeffs = vec![scalar_from_u64(3), scalar_from_u64(4)];
    let x = scalar_from_u64(2);
    let y = polynomial(&coeffs, &x);
    assert_eq!(y.b, scalar_from_u64(11).b);
}
