//! The bilinear pairing algebra, called through trusted wrappers around the
//! pairing library: random generators, scalar multiplication in the source
//! groups, the pairing, and multiplication, exponentiation and inversion in
//! the target group. Group elements are opaque; each deterministic operation's
//! result is given a name (a function of the operands alone), so that the
//! scheme's contracts can state the component equations. Scalars cross into
//! the library as canonical bytes, so a scalar operand enters a name by its
//! field value.

use vstd::prelude::*;

use crate::scalar::Scalar;

verus! {

#[verifier::external_type_specification]
#[verifier::external_body]
pub struct ExG1(rabe_bn::G1);

#[verifier::external_type_specification]
#[verifier::external_body]
pub struct ExG2(rabe_bn::G2);

#[verifier::external_type_specification]
#[verifier::external_body]
pub struct ExGt(rabe_bn::Gt);

/// What scalar multiplication in the first source group returns.
pub uninterp spec fn g1_mul_of(p: rabe_bn::G1, s: nat) -> rabe_bn::G1;

/// What scalar multiplication in the second source group returns.
pub uninterp spec fn g2_mul_of(p: rabe_bn::G2, s: nat) -> rabe_bn::G2;

/// What addition in the first source group returns.
pub uninterp spec fn g1_add_of(a: rabe_bn::G1, b: rabe_bn::G1) -> rabe_bn::G1;

/// What addition in the second source group returns.
pub uninterp spec fn g2_add_of(a: rabe_bn::G2, b: rabe_bn::G2) -> rabe_bn::G2;

/// What the bilinear pairing returns.
pub uninterp spec fn pairing_of(p: rabe_bn::G1, q: rabe_bn::G2) -> rabe_bn::Gt;

/// What multiplication in the target group returns.
pub uninterp spec fn gt_mul_of(a: rabe_bn::Gt, b: rabe_bn::Gt) -> rabe_bn::Gt;

/// What exponentiation in the target group returns.
pub uninterp spec fn gt_pow_of(a: rabe_bn::Gt, s: nat) -> rabe_bn::Gt;

/// What inversion in the target group returns.
pub uninterp spec fn gt_inverse_of(a: rabe_bn::Gt) -> rabe_bn::Gt;

/// What the byte image of a target-group element is.
pub uninterp spec fn gt_bytes_of(a: rabe_bn::Gt) -> Seq<u8>;

/// What the target group's multiplicative identity is; the parameter is a
/// placeholder, since a name carries at least one.
pub uninterp spec fn gt_one_of(u: nat) -> rabe_bn::Gt;

/// Relies on rabe_bn's G1::random and is_zero, rejecting and resampling the
/// identity so the generator is drawn from the non-identity elements; nothing
/// more is promised of the value.
#[verifier::external_body]
pub(crate) fn g1_random() -> rabe_bn::G1 {
    loop {
        let p = <rabe_bn::G1 as rabe_bn::Group>::random(&mut rand::thread_rng());
        if !rabe_bn::Group::is_zero(&p) {
            return p;
        }
    }
}

/// Relies on rabe_bn's G2::random and is_zero, rejecting and resampling the
/// identity so the generator is drawn from the non-identity elements; nothing
/// more is promised of the value.
#[verifier::external_body]
pub(crate) fn g2_random() -> rabe_bn::G2 {
    loop {
        let p = <rabe_bn::G2 as rabe_bn::Group>::random(&mut rand::thread_rng());
        if !rabe_bn::Group::is_zero(&p) {
            return p;
        }
    }
}

/// Relies on rabe_bn's scalar multiplication in G1; the scalar crosses over
/// through Fr::from_slice, which reads 32 canonical big-endian bytes, so the
/// result is a function of the point and the scalar's field value.
#[verifier::external_body]
pub(crate) fn g1_mul(p: &rabe_bn::G1, s: &Scalar) -> (r: rabe_bn::G1)
    requires
        s.wf(),
    ensures
        r == g1_mul_of(*p, s.val()),
{
    *p * rabe_bn::Fr::from_slice(&s.b).unwrap()
}

/// Relies on rabe_bn's scalar multiplication in G2; the scalar crosses over
/// through Fr::from_slice, which reads 32 canonical big-endian bytes, so the
/// result is a function of the point and the scalar's field value.
#[verifier::external_body]
pub(crate) fn g2_mul(p: &rabe_bn::G2, s: &Scalar) -> (r: rabe_bn::G2)
    requires
        s.wf(),
    ensures
        r == g2_mul_of(*p, s.val()),
{
    *p * rabe_bn::Fr::from_slice(&s.b).unwrap()
}

/// Relies on rabe_bn's group addition in G1, a function of the two points.
#[verifier::external_body]
pub(crate) fn g1_add(a: &rabe_bn::G1, b: &rabe_bn::G1) -> (r: rabe_bn::G1)
    ensures
        r == g1_add_of(*a, *b),
{
    *a + *b
}

/// Relies on rabe_bn's group addition in G2, a function of the two points.
#[verifier::external_body]
pub(crate) fn g2_add(a: &rabe_bn::G2, b: &rabe_bn::G2) -> (r: rabe_bn::G2)
    ensures
        r == g2_add_of(*a, *b),
{
    *a + *b
}

/// Relies on rabe_bn's pairing, the bilinear map from the source groups to
/// the target group, a function of its two operands.
#[verifier::external_body]
pub(crate) fn pairing(p: &rabe_bn::G1, q: &rabe_bn::G2) -> (r: rabe_bn::Gt)
    ensures
        r == pairing_of(*p, *q),
{
    rabe_bn::pairing(*p, *q)
}

/// Relies on rabe_bn's multiplication in the target group, a function of the
/// two elements.
#[verifier::external_body]
pub(crate) fn gt_mul(a: &rabe_bn::Gt, b: &rabe_bn::Gt) -> (r: rabe_bn::Gt)
    ensures
        r == gt_mul_of(*a, *b),
{
    *a * *b
}

/// Relies on rabe_bn's exponentiation in the target group; the exponent
/// crosses over through Fr::from_slice, so the result is a function of the
/// element and the exponent's field value.
#[verifier::external_body]
pub(crate) fn gt_pow(a: &rabe_bn::Gt, s: &Scalar) -> (r: rabe_bn::Gt)
    requires
        s.wf(),
    ensures
        r == gt_pow_of(*a, s.val()),
{
    a.pow(rabe_bn::Fr::from_slice(&s.b).unwrap())
}

/// Relies on rabe_bn's inversion in the target group, a function of the
/// element (the unwrapped field inverse exists for every element reachable
/// through the public Gt interface, which holds units only).
#[verifier::external_body]
pub(crate) fn gt_inverse(a: &rabe_bn::Gt) -> (r: rabe_bn::Gt)
    ensures
        r == gt_inverse_of(*a),
{
    a.inverse()
}

/// Relies on rabe_bn's Gt::one, the multiplicative identity of the target
/// group: one fixed value.
#[verifier::external_body]
pub(crate) fn gt_one() -> (r: rabe_bn::Gt)
    ensures
        r == gt_one_of(0),
{
    rabe_bn::Gt::one()
}

/// Relies on rabe_bn's Gt::into_bytes: the byte image of a target-group
/// element, read from its unique internal representation, so a function of
/// the element.
#[verifier::external_body]
pub(crate) fn gt_bytes(a: &rabe_bn::Gt) -> (r: Vec<u8>)
    ensures
        r@ == gt_bytes_of(*a),
{
    a.into_bytes()
}

/// What hashing a label into the scalar field returns: a reduced value
/// depending on the label alone.
pub uninterp spec fn hash_scalar_of(label: Seq<char>) -> nat;

/// Relies on blake2_rfc's blake2b (64-byte digest of the label's bytes) and
/// num_bigint's remainder to reduce the digest into the scalar field: the
/// keyed hash-to-field primitive, a function of the label alone.
#[verifier::external_body]
pub(crate) fn hash_to_scalar(label: &String) -> (r: Scalar)
    ensures
        r.wf(),
        r.val() == hash_scalar_of(label@),
{
    let h = blake2_rfc::blake2b::blake2b(64, &[], label.as_bytes());
    let m = num_bigint::BigUint::parse_bytes(b"21888242871839275222246405745257275088548364400416034343698204186575808495617", 10).unwrap();
    let zb = (num_bigint::BigUint::from_bytes_be(h.as_bytes()) % m).to_bytes_be();
    let pad = 32 - zb.len();
    let mut out = vec![0u8; pad];
    out.extend_from_slice(&zb);
    Scalar { b: out }
}

/// The per-attribute group element: the domain-separating base raised to the
/// hash of the attribute name.
pub fn hash_to_g2(base: &rabe_bn::G2, label: &String) -> (r: rabe_bn::G2)
    ensures
        r == g2_mul_of(*base, hash_scalar_of(label@)),
{
    let s = hash_to_scalar(label);
    g2_mul(base, &s)
}

} // verus!
