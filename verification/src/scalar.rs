//! Scalars of the pairing's prime-order field `Fr`, held as 32 canonical
//! big-endian bytes. Field arithmetic modulo the group order is carried out by
//! the `num_bigint` crate behind trusted wrappers whose contracts state the
//! exact modular result.

use vstd::prelude::*;

verus! {

broadcast use vstd::seq::group_seq_axioms, vstd::std_specs::vec::group_vec_axioms;

/// The prime order of the scalar field `Fr` of the pairing groups (the order
/// of the Barreto-Naehrig curve the pairing library is built on).
pub open spec fn fr_order() -> nat {
    21888242871839275222246405745257275088548364400416034343698204186575808495617nat
}

/// The value of a big-endian byte string.
pub open spec fn be_val(s: Seq<u8>) -> nat
    decreases s.len(),
{
    if s.len() == 0 {
        0
    } else {
        (be_val(s.drop_last()) * 256 + s.last()) as nat
    }
}

/// A scalar of `Fr`: 32 big-endian bytes holding the canonical value.
pub struct Scalar {
    pub b: Vec<u8>,
}

impl Scalar {
    /// The field value.
    pub open spec fn val(self) -> nat {
        be_val(self.b@)
    }

    /// Exactly 32 bytes, holding a reduced value.
    pub open spec fn wf(self) -> bool {
        self.b@.len() == 32 && self.val() < fr_order()
    }
}

/// The field values of a sequence of scalars.
pub open spec fn scalars_view(v: Seq<Scalar>) -> Seq<nat> {
    v.map_values(|s: Scalar| s.val())
}

/// All entries are well-formed scalars.
pub open spec fn all_wf(v: Seq<Scalar>) -> bool {
    forall|i: int| 0 <= i < v.len() ==> (#[trigger] v[i]).wf()
}

/// The inverse of a value in the scalar field: the reduced value whose
/// product with it is one.
pub open spec fn inv_mod(x: nat) -> nat {
    choose|y: nat| y < fr_order() && (#[trigger] ((x * y) % fr_order())) == 1
}

/// A value of the scalar field has at most one inverse.
pub proof fn lemma_inv_unique(x: nat, y1: nat, y2: nat)
    requires
        y1 < fr_order(),
        y2 < fr_order(),
        (x * y1) % fr_order() == 1,
        (x * y2) % fr_order() == 1,
    ensures
        y1 == y2,
{
    let m = fr_order() as int;
    let xi = x as int;
    let a = y1 as int;
    let b = y2 as int;
    vstd::arithmetic::div_mod::lemma_small_mod(y1, fr_order());
    vstd::arithmetic::div_mod::lemma_small_mod(y2, fr_order());
    vstd::arithmetic::div_mod::lemma_mul_mod_noop_right(a, xi * b, m);
    vstd::arithmetic::mul::lemma_mul_is_associative(a, xi, b);
    vstd::arithmetic::mul::lemma_mul_is_commutative(a, xi);
    vstd::arithmetic::div_mod::lemma_mul_mod_noop_left(xi * a, b, m);
    assert(a == (a * ((xi * b) % m)) % m);
    assert((a * ((xi * b) % m)) % m == (a * (xi * b)) % m);
    assert((a * (xi * b)) % m == ((xi * a) * b) % m);
    assert(((xi * a) * b) % m == (((xi * a) % m) * b) % m);
    assert((((xi * a) % m) * b) % m == b);
}

/// A byte string of zeros has value zero.
proof fn lemma_be_val_zeros(s: Seq<u8>)
    requires
        forall|i: int| 0 <= i < s.len() ==> s[i] == 0,
    ensures
        be_val(s) == 0,
    decreases s.len(),
{
    if s.len() > 0 {
        lemma_be_val_zeros(s.drop_last());
    }
}

/// Relies on num_bigint's BigUint (from_bytes_be, addition, remainder,
/// to_bytes_be) for the field addition modulo the group order.
#[verifier::external_body]
pub(crate) fn fr_add(a: &Scalar, b: &Scalar) -> (r: Scalar)
    requires
        a.wf(),
        b.wf(),
    ensures
        r.wf(),
        r.val() == (a.val() + b.val()) % fr_order(),
{
    let m = num_bigint::BigUint::parse_bytes(b"21888242871839275222246405745257275088548364400416034343698204186575808495617", 10).unwrap();
    let x = num_bigint::BigUint::from_bytes_be(&a.b);
    let y = num_bigint::BigUint::from_bytes_be(&b.b);
    let zb = ((x + y) % m).to_bytes_be();
    let pad = 32 - zb.len();
    let mut out = vec![0u8; pad];
    out.extend_from_slice(&zb);
    Scalar { b: out }
}

/// Relies on num_bigint's BigUint for the field subtraction modulo the group
/// order (computed as `a + order - b`).
#[verifier::external_body]
pub(crate) fn fr_sub(a: &Scalar, b: &Scalar) -> (r: Scalar)
    requires
        a.wf(),
        b.wf(),
    ensures
        r.wf(),
        r.val() == ((a.val() + fr_order() - b.val()) as nat) % fr_order(),
{
    let m = num_bigint::BigUint::parse_bytes(b"21888242871839275222246405745257275088548364400416034343698204186575808495617", 10).unwrap();
    let x = num_bigint::BigUint::from_bytes_be(&a.b);
    let y = num_bigint::BigUint::from_bytes_be(&b.b);
    let zb = ((x + &m - y) % &m).to_bytes_be();
    let pad = 32 - zb.len();
    let mut out = vec![0u8; pad];
    out.extend_from_slice(&zb);
    Scalar { b: out }
}

/// Relies on num_bigint's BigUint for the field multiplication modulo the
/// group order.
#[verifier::external_body]
pub(crate) fn fr_mul(a: &Scalar, b: &Scalar) -> (r: Scalar)
    requires
        a.wf(),
        b.wf(),
    ensures
        r.wf(),
        r.val() == (a.val() * b.val()) % fr_order(),
{
    let m = num_bigint::BigUint::parse_bytes(b"21888242871839275222246405745257275088548364400416034343698204186575808495617", 10).unwrap();
    let x = num_bigint::BigUint::from_bytes_be(&a.b);
    let y = num_bigint::BigUint::from_bytes_be(&b.b);
    let zb = ((x * y) % m).to_bytes_be();
    let pad = 32 - zb.len();
    let mut out = vec![0u8; pad];
    out.extend_from_slice(&zb);
    Scalar { b: out }
}

/// Relies on num_bigint's BigUint::modinv: the inverse exists for every value
/// coprime with the modulus, so (the modulus being prime) for every non-zero
/// reduced value, and the result is the reduced inverse.
#[verifier::external_body]
pub(crate) fn fr_inverse(a: &Scalar) -> (r: Scalar)
    requires
        a.wf(),
        a.val() != 0,
    ensures
        r.wf(),
        (a.val() * r.val()) % fr_order() == 1,
{
    let m = num_bigint::BigUint::parse_bytes(b"21888242871839275222246405745257275088548364400416034343698204186575808495617", 10).unwrap();
    let x = num_bigint::BigUint::from_bytes_be(&a.b);
    let zb = x.modinv(&m).unwrap().to_bytes_be();
    let pad = 32 - zb.len();
    let mut out = vec![0u8; pad];
    out.extend_from_slice(&zb);
    Scalar { b: out }
}

/// Relies on rand's thread_rng to sample 64 uniform bytes, reduced by
/// num_bigint's remainder; nothing is promised of the value beyond reduction.
#[verifier::external_body]
pub(crate) fn fr_random() -> (r: Scalar)
    ensures
        r.wf(),
{
    let mut buf = [0u8; 64];
    rand::Rng::fill(&mut rand::thread_rng(), &mut buf[..]);
    let m = num_bigint::BigUint::parse_bytes(b"21888242871839275222246405745257275088548364400416034343698204186575808495617", 10).unwrap();
    let zb = (num_bigint::BigUint::from_bytes_be(&buf) % m).to_bytes_be();
    let pad = 32 - zb.len();
    let mut out = vec![0u8; pad];
    out.extend_from_slice(&zb);
    Scalar { b: out }
}

/// Relies on rand's thread_rng and num_bigint's remainder as fr_random does,
/// rejecting and resampling the zero value; terminates with overwhelming
/// probability at the first draw.
#[verifier::external_body]
pub(crate) fn fr_random_nonzero() -> (r: Scalar)
    ensures
        r.wf(),
        r.val() != 0,
{
    loop {
        let s = fr_random();
        if s.b.iter().any(|&x| x != 0) {
            return s;
        }
    }
}

/// The scalar zero.
pub fn fr_zero() -> (r: Scalar)
    ensures
        r.wf(),
        r.val() == 0,
{
    let mut v: Vec<u8> = Vec::new();
    while v.len() < 32
        invariant
            v@.len() <= 32,
            forall|i: int| 0 <= i < v@.len() ==> v@[i] == 0,
        decreases 32 - v@.len(),
    {
        v.push(0u8);
    }
    proof {
        lemma_be_val_zeros(v@);
        assert(fr_order() > 0);
    }
    Scalar { b: v }
}

/// The scalar one.
pub fn fr_one() -> (r: Scalar)
    ensures
        r.wf(),
        r.val() == 1,
{
    let mut v: Vec<u8> = Vec::new();
    while v.len() < 31
        invariant
            v@.len() <= 31,
            forall|i: int| 0 <= i < v@.len() ==> v@[i] == 0,
        decreases 31 - v@.len(),
    {
        v.push(0u8);
    }
    proof {
        lemma_be_val_zeros(v@);
    }
    v.push(1u8);
    proof {
        assert(v@.drop_last() =~= v@.subrange(0, 31));
        lemma_be_val_zeros(v@.drop_last());
        assert(be_val(v@) == be_val(v@.drop_last()) * 256 + v@.last());
        assert(fr_order() > 1);
    }
    Scalar { b: v }
}

/// A uniformly random reduced scalar.
pub fn random_scalar() -> (r: Scalar)
    ensures
        r.wf(),
{
    fr_random()
}

/// The scalar holding a machine integer, built by repeated increment.
#[verifier::loop_isolation(false)]
pub fn scalar_from_u64(x: u64) -> (r: Scalar)
    ensures
        r.wf(),
        r.val() == x,
{
    let one = fr_one();
    let mut acc = fr_zero();
    let mut i: u64 = 0;
    while i < x
        invariant
            i <= x,
            acc.wf(),
            acc.val() == i,
        decreases x - i,
    {
        acc = fr_add(&acc, &one);
        proof {
            assert(i + 1 < fr_order());
            vstd::arithmetic::div_mod::lemma_small_mod((i + 1) as nat, fr_order());
        }
        i += 1;
    }
    acc
}

/// An exact copy of a scalar.
pub fn scalar_copy(a: &Scalar) -> (r: Scalar)
    ensures
        r.b@ == a.b@,
        r.val() == a.val(),
        a.wf() ==> r.wf(),
{
    let mut v: Vec<u8> = Vec::new();
    let mut i: usize = 0;
    while i < a.b.len()
        invariant
            i <= a.b@.len(),
            v@ == a.b@.subrange(0, i as int),
        decreases a.b@.len() - i,
    {
        v.push(a.b[i]);
        proof {
            assert(v@ =~= a.b@.subrange(0, i + 1 as int));
        }
        i += 1;
    }
    proof {
        assert(v@ =~= a.b@);
    }
    Scalar { b: v }
}

} // verus!
