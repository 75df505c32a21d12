//! The hybrid envelope: a symmetric key pair (cipher key, authentication key)
//! is derived from the session element's bytes, the payload is encrypted with
//! AES-256 in counter mode under a fresh nonce, and the blob carries
//! nonce, ciphertext and a keyed digest over both. Opening recomputes the
//! digest and rejects any blob that does not carry it.

use vstd::prelude::*;

verus! {

broadcast use vstd::seq::group_seq_axioms, vstd::std_specs::vec::group_vec_axioms;

/// The domain-separation label under which the key pair is derived from the
/// session element's bytes.
pub open spec fn envelope_domain() -> Seq<u8> {
    seq![99u8, 112u8, 97u8, 98u8, 101u8, 45u8, 101u8, 110u8, 118u8]
}

/// The domain-separation label as a vector.
fn envelope_domain_bytes() -> (r: Vec<u8>)
    ensures
        r@ == envelope_domain(),
{
    let out: Vec<u8> = vec![99u8, 112u8, 97u8, 98u8, 101u8, 45u8, 101u8, 110u8, 118u8];
    proof {
        assert(out@ =~= envelope_domain());
    }
    out
}

/// What the keyed 64-byte digest returns: a function of key and data alone.
pub uninterp spec fn blake2b_of(key: Seq<u8>, data: Seq<u8>) -> Seq<u8>;

/// What the counter-mode cipher returns: a function of key, nonce and data
/// alone.
pub uninterp spec fn aes_ctr_of(key: Seq<u8>, nonce: Seq<u8>, data: Seq<u8>) -> Seq<u8>;

/// Relies on blake2_rfc's blake2b with a 64-byte digest: deterministic in key
/// and data, always 64 bytes. The library asserts the key fits its block, so
/// keys longer than 64 bytes are left out.
#[verifier::external_body]
fn blake2b64(key: &Vec<u8>, data: &Vec<u8>) -> (r: Vec<u8>)
    requires
        key@.len() <= 64,
    ensures
        r@ == blake2b_of(key@, data@),
        r@.len() == 64,
{
    blake2_rfc::blake2b::blake2b(64, key, data).as_bytes().to_vec()
}

/// Relies on rust-crypto's aes::ctr with a 256-bit key: a synchronous stream
/// cipher that XORs a keystream determined by key and nonce, so its output
/// has the input's length and applying it twice returns the input. The
/// library asserts the key and nonce sizes, so others are left out.
#[verifier::external_body]
fn aes256_ctr(key: &Vec<u8>, nonce: &Vec<u8>, data: &Vec<u8>) -> (r: Vec<u8>)
    requires
        key@.len() == 32,
        nonce@.len() == 16,
    ensures
        r@ == aes_ctr_of(key@, nonce@, data@),
        r@.len() == data@.len(),
        aes_ctr_of(key@, nonce@, r@) == data@,
{
    let mut c = crypto::aes::ctr(crypto::aes::KeySize::KeySize256, key, nonce);
    let mut out = vec![0u8; data.len()];
    c.process(data, &mut out);
    out
}

/// Relies on rand's thread_rng to fill a buffer with random bytes; nothing is
/// promised of the values.
#[verifier::external_body]
fn random_bytes(n: usize) -> (r: Vec<u8>)
    ensures
        r@.len() == n,
{
    let mut out = vec![0u8; n];
    rand::Rng::fill(&mut rand::thread_rng(), &mut out[..]);
    out
}

/// What opening a blob under key material returns: checked against the
/// recomputed digest, then deciphered.
pub open spec fn open_spec(key_src: Seq<u8>, blob: Seq<u8>) -> Option<Seq<u8>> {
    if blob.len() < 80 {
        None
    } else {
        let nonce = blob.subrange(0, 16);
        let ct = blob.subrange(16, blob.len() - 64);
        let tag = blob.subrange(blob.len() - 64, blob.len() as int);
        let kk = blake2b_of(envelope_domain(), key_src);
        if tag == blake2b_of(kk.subrange(32, 64), nonce + ct) {
            Some(aes_ctr_of(kk.subrange(0, 32), nonce, ct))
        } else {
            None
        }
    }
}

/// Copy `src[from..to]` into a fresh vector.
#[verifier::loop_isolation(false)]
fn bytes_range(src: &Vec<u8>, from: usize, to: usize) -> (r: Vec<u8>)
    requires
        from <= to <= src@.len(),
    ensures
        r@ == src@.subrange(from as int, to as int),
{
    let mut out: Vec<u8> = Vec::new();
    let mut i: usize = from;
    proof {
        assert(out@ =~= src@.subrange(from as int, from as int));
    }
    while i < to
        invariant
            from <= i <= to,
            out@ == src@.subrange(from as int, i as int),
        decreases to - i,
    {
        out.push(src[i]);
        proof {
            assert(out@ =~= src@.subrange(from as int, i + 1 as int));
        }
        i += 1;
    }
    out
}

/// Whether two byte vectors hold the same bytes.
#[verifier::loop_isolation(false)]
fn bytes_eq(a: &Vec<u8>, b: &Vec<u8>) -> (r: bool)
    ensures
        r == (a@ == b@),
{
    if a.len() != b.len() {
        return false;
    }
    let mut i: usize = 0;
    while i < a.len()
        invariant
            i <= a@.len(),
            a@.len() == b@.len(),
            forall|j: int| 0 <= j < i ==> a@[j] == b@[j],
        decreases a@.len() - i,
    {
        if a[i] != b[i] {
            return false;
        }
        i += 1;
    }
    proof {
        assert(a@ =~= b@);
    }
    true
}

/// Concatenate two byte vectors into a fresh one.
#[verifier::loop_isolation(false)]
fn bytes_concat(a: &Vec<u8>, b: &Vec<u8>) -> (r: Vec<u8>)
    ensures
        r@ == a@ + b@,
{
    let mut out = bytes_range(a, 0, a.len());
    let mut i: usize = 0;
    proof {
        assert(a@.subrange(0, a@.len() as int) =~= a@);
        assert(out@ =~= a@ + b@.subrange(0, 0));
    }
    while i < b.len()
        invariant
            i <= b@.len(),
            out@ == a@ + b@.subrange(0, i as int),
        decreases b@.len() - i,
    {
        out.push(b[i]);
        proof {
            assert(out@ =~= a@ + b@.subrange(0, i + 1 as int));
        }
        i += 1;
    }
    proof {
        assert(b@.subrange(0, b@.len() as int) =~= b@);
    }
    out
}

/// Seal a payload under key material: derive the cipher and digest keys under
/// the domain-separation label, encipher under a fresh nonce, and append the
/// keyed digest. Opening the returned blob under the same key material
/// returns exactly the payload.
pub fn seal_symmetric(key_src: &Vec<u8>, data: &Vec<u8>) -> (r: Vec<u8>)
    ensures
        open_spec(key_src@, r@) == Some(data@),
        r@.len() == data@.len() + 80,
{
    let dk = envelope_domain_bytes();
    let kk = blake2b64(&dk, key_src);
    let k_enc = bytes_range(&kk, 0, 32);
    let k_mac = bytes_range(&kk, 32, 64);
    let nonce = random_bytes(16);
    let ct = aes256_ctr(&k_enc, &nonce, data);
    let nonce_ct = bytes_concat(&nonce, &ct);
    let tag = blake2b64(&k_mac, &nonce_ct);
    let blob = bytes_concat(&nonce_ct, &tag);
    proof {
        assert(blob@.len() == data@.len() + 80);
        assert(blob@.subrange(0, 16) =~= nonce@);
        assert(blob@.subrange(16, blob@.len() - 64) =~= ct@);
        assert(blob@.subrange(blob@.len() - 64, blob@.len() as int) =~= tag@);
    }
    blob
}

/// Open a sealed blob: recompute the keyed digest over nonce and ciphertext
/// and decipher only a blob that carries it. Returns exactly what the
/// specification-level opening gives.
pub fn open_symmetric(key_src: &Vec<u8>, blob: &Vec<u8>) -> (r: Option<Vec<u8>>)
    ensures
        r is Some <==> open_spec(key_src@, blob@) is Some,
        r is Some ==> Some(r->0@) == open_spec(key_src@, blob@),
        r is Some ==> r->0@.len() + 80 == blob@.len(),
{
    if blob.len() < 80 {
        return None;
    }
    let dk = envelope_domain_bytes();
    let kk = blake2b64(&dk, key_src);
    let k_enc = bytes_range(&kk, 0, 32);
    let k_mac = bytes_range(&kk, 32, 64);
    let nonce = bytes_range(blob, 0, 16);
    let ct = bytes_range(blob, 16, blob.len() - 64);
    let tag = bytes_range(blob, blob.len() - 64, blob.len());
    let nonce_ct = bytes_concat(&nonce, &ct);
    let expected = blake2b64(&k_mac, &nonce_ct);
    if bytes_eq(&tag, &expected) {
        let pt = aes256_ctr(&k_enc, &nonce, &ct);
        Some(pt)
    } else {
        None
    }
}

} // verus!
