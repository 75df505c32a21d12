//! The ciphertext-policy scheme: setup, key generation, delegation,
//! encryption and decryption. A payload is sealed under a random target-group
//! session element; the root secret of the sharing is bound into the
//! ciphertext so that only a key whose attribute set satisfies the policy can
//! rebuild the session element by pairing and Lagrange recovery.

use vstd::prelude::*;

use crate::envelope::open_spec;
use crate::envelope::open_symmetric;
use crate::envelope::seal_symmetric;
use crate::groups::g1_add_of;
use crate::groups::g1_mul_of;
use crate::groups::g2_add_of;
use crate::groups::g2_mul_of;
use crate::groups::gt_bytes_of;
use crate::groups::gt_inverse_of;
use crate::groups::gt_mul_of;
use crate::groups::gt_one_of;
use crate::groups::gt_pow_of;
use crate::groups::hash_scalar_of;
use crate::groups::pairing_of;
use crate::groups::g1_add;
use crate::groups::g1_mul;
use crate::groups::g1_random;
use crate::groups::g2_add;
use crate::groups::g2_mul;
use crate::groups::g2_random;
use crate::groups::gt_bytes;
use crate::groups::gt_inverse;
use crate::groups::gt_mul;
use crate::groups::gt_one;
use crate::groups::gt_pow;
use crate::groups::hash_to_g2;
use crate::groups::pairing;
use crate::parser::parse_policy;
use crate::parser::spec_parse_policy;
use crate::policy::PolicyNode;
use crate::policy::lemma_view_leaf_names;
use crate::policy::leaf_names_v;
use crate::policy::view_policy;
use crate::policy::lemma_prune_satisfies;
use crate::policy::leaf_names;
use crate::policy::prune_spec;
use crate::policy::required_attributes;
use crate::policy::satisfies;
use crate::policy::strs_view;
use crate::policy::wf_policy;
use crate::scalar::Scalar;
use crate::scalar::fr_order;
use crate::scalar::fr_inverse;
use crate::scalar::fr_one;
use crate::scalar::fr_random;
use crate::scalar::fr_random_nonzero;
use crate::secretsharing::calc_coefficients;
use crate::secretsharing::gen_shares_json;
use crate::secretsharing::coeff_vals;
use crate::secretsharing::pairs_names;
use crate::secretsharing::pairs_vals;
use crate::secretsharing::shares_rel;

verus! {

broadcast use vstd::seq::group_seq_axioms, vstd::std_specs::vec::group_vec_axioms;

/// One attribute's group elements, in a key or in a ciphertext.
pub struct CpAbeAttribute {
    pub _str: String,
    pub _g1: rabe_bn::G1,
    pub _g2: rabe_bn::G2,
}

/// The public key: two generators, the blinded generator pair and the paired
/// secret exponent.
pub struct CpAbePublicKey {
    pub _g1: rabe_bn::G1,
    pub _g2: rabe_bn::G2,
    pub _h: rabe_bn::G1,
    pub _f: rabe_bn::G2,
    pub _e_gg_alpha: rabe_bn::Gt,
}

/// The master key: the blinding scalar and the secret exponent in the second
/// source group.
pub struct CpAbeMasterKey {
    pub _beta: Scalar,
    pub _g2_alpha: rabe_bn::G2,
}

impl CpAbeMasterKey {
    /// The blinding scalar is reduced and non-zero, so it can be inverted.
    pub open spec fn wf(self) -> bool {
        self._beta.wf() && self._beta.val() != 0
    }
}

/// A user's secret key: the blinded issuance element and one entry per
/// attribute, all bound by the issuance's shared randomness.
pub struct CpAbeSecretKey {
    pub _d: rabe_bn::G2,
    pub _d_j: Vec<CpAbeAttribute>,
}

/// A ciphertext: the policy (as text and as the parsed tree), the bound root
/// secret, the blinded session element, one entry per policy leaf, and the
/// sealed payload.
pub struct CpAbeCiphertext {
    pub _policy: String,
    pub _tree: PolicyNode,
    pub _c: rabe_bn::G1,
    pub _c_p: rabe_bn::Gt,
    pub _c_y: Vec<CpAbeAttribute>,
    pub _ct: Vec<u8>,
}

/// A key-authority context: the master key with its public key.
pub struct CpAbeContext {
    pub _msk: CpAbeMasterKey,
    pub _pk: CpAbePublicKey,
}

/// The attribute names of a sequence of attribute entries.
pub open spec fn attr_names(v: Seq<CpAbeAttribute>) -> Seq<Seq<char>> {
    v.map_values(|a: CpAbeAttribute| a._str@)
}

/// Every name of `sub` occurs in `sup`.
pub open spec fn subset_of(sub: Seq<Seq<char>>, sup: Seq<Seq<char>>) -> bool {
    forall|i: int| 0 <= i < sub.len() ==> sup.contains(#[trigger] sub[i])
}

/// The first position at or after `i` whose entry carries `name`, or the
/// list's length if none does.
pub open spec fn first_with_name(v: Seq<CpAbeAttribute>, name: Seq<char>, i: int) -> int
    decreases v.len() - i,
{
    if i < 0 || i >= v.len() {
        v.len() as int
    } else if v[i]._str@ == name {
        i
    } else {
        first_with_name(v, name, i + 1)
    }
}

/// One issued key entry, bound by the issuance's shared element `g_r`: fresh
/// per-attribute randomness over the hashed name.
pub open spec fn keygen_entry(e: CpAbeAttribute, pk: CpAbePublicKey, g_r: rabe_bn::G2) -> bool {
    exists|rj: nat| #![auto] {
        &&& rj < fr_order()
        &&& e._g1 == g1_mul_of(pk._g1, rj)
        &&& e._g2 == g2_add_of(g_r, g2_mul_of(g2_mul_of(pk._g2, hash_scalar_of(e._str@)), rj))
    }
}

/// The issuance equations: one scalar binds the blinded element and every
/// attribute entry of the key (the collusion barrier).
pub open spec fn keygen_shape(sk: CpAbeSecretKey, pk: CpAbePublicKey, msk: CpAbeMasterKey) -> bool {
    exists|rv: nat| #![trigger g2_mul_of(pk._g2, rv)] {
        &&& rv < fr_order()
        &&& (exists|bi: nat| #![auto] (msk._beta.val() * bi) % fr_order() == 1
            && sk._d == g2_mul_of(g2_add_of(msk._g2_alpha, g2_mul_of(pk._g2, rv)), bi))
        &&& forall|i: int| 0 <= i < sk._d_j@.len()
            ==> keygen_entry(#[trigger] sk._d_j@[i], pk, g2_mul_of(pk._g2, rv))
    }
}

/// One delegated key entry: the base entry of the parent key, re-randomized
/// with fresh per-attribute randomness and the delegation's shared element.
pub open spec fn delegate_entry(e: CpAbeAttribute, pk: CpAbePublicKey, base: CpAbeAttribute, gr: rabe_bn::G2) -> bool {
    exists|rj: nat| #![auto] {
        &&& rj < fr_order()
        &&& e._g1 == g1_add_of(base._g1, g1_mul_of(pk._g1, rj))
        &&& e._g2 == g2_add_of(g2_add_of(base._g2, g2_mul_of(g2_mul_of(pk._g2, hash_scalar_of(e._str@)), rj)), gr)
    }
}

/// The delegation equations: one scalar re-randomizes the blinded element and
/// every entry, each entry built on the parent key's first entry of its name.
pub open spec fn delegate_shape(nk: CpAbeSecretKey, pk: CpAbePublicKey, sk: CpAbeSecretKey) -> bool {
    exists|rv: nat| #![trigger g2_mul_of(pk._g2, rv)] {
        &&& rv < fr_order()
        &&& nk._d == g2_add_of(sk._d, g2_mul_of(pk._f, rv))
        &&& forall|i: int| 0 <= i < nk._d_j@.len() ==> delegate_entry(
            #[trigger] nk._d_j@[i],
            pk,
            sk._d_j@[first_with_name(sk._d_j@, nk._d_j@[i]._str@, 0)],
            g2_mul_of(pk._g2, rv),
        )
    }
}

/// The ciphertext equations, over the root secret `s`, the session element
/// `m` and the per-leaf shares `sv`: the bound secret, the blinded session
/// element, one entry per leaf share, and the payload sealed under the
/// session element's bytes.
pub open spec fn encrypt_rel(ct: CpAbeCiphertext, pk: CpAbePublicKey, plaintext: Seq<u8>, s: nat, m: rabe_bn::Gt, sv: Seq<nat>) -> bool {
    &&& s < fr_order()
    &&& (exists|x: rabe_bn::G1, y: rabe_bn::G2| #![auto] m == pairing_of(x, y))
    &&& ct._c == g1_mul_of(pk._h, s)
    &&& ct._c_p == gt_mul_of(gt_pow_of(pk._e_gg_alpha, s), m)
    &&& open_spec(gt_bytes_of(m), ct._ct@) == Some(plaintext)
    &&& shares_rel(ct._tree, s, sv)
    &&& sv.len() == ct._c_y@.len()
    &&& forall|i: int| 0 <= i < ct._c_y@.len() ==> {
        let e = #[trigger] ct._c_y@[i];
        &&& e._g1 == g1_mul_of(pk._g1, sv[i])
        &&& e._g2 == g2_mul_of(g2_mul_of(pk._g2, hash_scalar_of(e._str@)), sv[i])
    }
}

/// Generate a public key and a master key: random generators, a random
/// non-zero blinding scalar and a random non-zero secret exponent.
pub fn setup() -> (r: (CpAbePublicKey, CpAbeMasterKey))
    ensures
        r.1.wf(),
        r.0._h == g1_mul_of(r.0._g1, r.1._beta.val()),
        r.0._e_gg_alpha == pairing_of(r.0._g1, r.1._g2_alpha),
        exists|bi: nat| #![trigger g2_mul_of(r.0._g2, bi)] (r.1._beta.val() * bi) % fr_order() == 1
            && r.0._f == g2_mul_of(r.0._g2, bi),
        exists|al: nat| #![trigger g2_mul_of(r.0._g2, al)] 0 < al < fr_order()
            && r.1._g2_alpha == g2_mul_of(r.0._g2, al),
{
    let _g = g1_random();
    let _gp = g2_random();
    let _beta = fr_random_nonzero();
    let _alpha = fr_random_nonzero();
    let beta_inv = fr_inverse(&_beta);
    let _h = g1_mul(&_g, &_beta);
    let _f = g2_mul(&_gp, &beta_inv);
    let _g2_alpha = g2_mul(&_gp, &_alpha);
    let _e_gg_alpha = pairing(&_g, &_g2_alpha);
    let pk = CpAbePublicKey { _g1: _g, _g2: _gp, _h: _h, _f: _f, _e_gg_alpha: _e_gg_alpha };
    let msk = CpAbeMasterKey { _beta: _beta, _g2_alpha: _g2_alpha };
    proof {
        assert((msk._beta.val() * beta_inv.val()) % fr_order() == 1
            && pk._f == g2_mul_of(pk._g2, beta_inv.val()));
        assert(exists|bi: nat| #![trigger g2_mul_of(pk._g2, bi)]
            (msk._beta.val() * bi) % fr_order() == 1 && pk._f == g2_mul_of(pk._g2, bi));
        assert(0 < _alpha.val() < fr_order() && msk._g2_alpha == g2_mul_of(pk._g2, _alpha.val()));
        assert(exists|al: nat| #![trigger g2_mul_of(pk._g2, al)]
            0 < al < fr_order() && msk._g2_alpha == g2_mul_of(pk._g2, al));
    }
    (pk, msk)
}

/// Issue a secret key for a non-empty attribute set. One fresh scalar binds
/// all attribute entries of the key (the collusion barrier); each attribute
/// additionally carries its own fresh scalar. The key holds exactly the given
/// names, in order.
#[verifier::loop_isolation(false)]
pub fn keygen(
    _pk: &CpAbePublicKey,
    _msk: &CpAbeMasterKey,
    _attributes: &Vec<String>,
) -> (r: Option<CpAbeSecretKey>)
    requires
        _msk.wf(),
    ensures
        r is Some <==> _attributes@.len() > 0,
        r is Some ==> attr_names(r->0._d_j@) == strs_view(_attributes@),
        r is Some ==> keygen_shape(r->0, *_pk, *_msk),
{
    if _attributes.len() == 0 {
        return None;
    }
    let _r = fr_random();
    let _g_r = g2_mul(&_pk._g2, &_r);
    let beta_inv = fr_inverse(&_msk._beta);
    let num = g2_add(&_msk._g2_alpha, &_g_r);
    let _d = g2_mul(&num, &beta_inv);
    let mut _d_j: Vec<CpAbeAttribute> = Vec::new();
    let mut i: usize = 0;
    proof {
        assert(attr_names(_d_j@) =~= strs_view(_attributes@).subrange(0, 0));
    }
    while i < _attributes.len()
        invariant
            i <= _attributes@.len(),
            attr_names(_d_j@) == strs_view(_attributes@).subrange(0, i as int),
            forall|j: int| 0 <= j < _d_j@.len() ==> keygen_entry(#[trigger] _d_j@[j], *_pk, _g_r),
        decreases _attributes@.len() - i,
    {
        let _r_j = fr_random();
        let h = hash_to_g2(&_pk._g2, &_attributes[i]);
        let hr = g2_mul(&h, &_r_j);
        let entry = CpAbeAttribute {
            _str: _attributes[i].clone(),
            _g1: g1_mul(&_pk._g1, &_r_j),
            _g2: g2_add(&_g_r, &hr),
        };
        let ghost old_dj = _d_j@;
        _d_j.push(entry);
        proof {
            assert(attr_names(_d_j@) =~= attr_names(old_dj).push(_attributes@[i as int]@));
            assert(strs_view(_attributes@).subrange(0, i + 1 as int)
                =~= strs_view(_attributes@).subrange(0, i as int).push(_attributes@[i as int]@));
            assert(keygen_entry(entry, *_pk, _g_r)) by {
                assert(_r_j.val() < fr_order()
                    && entry._g1 == g1_mul_of(_pk._g1, _r_j.val())
                    && entry._g2 == g2_add_of(
                        _g_r,
                        g2_mul_of(g2_mul_of(_pk._g2, hash_scalar_of(entry._str@)), _r_j.val()),
                    ));
            }
        }
        i += 1;
    }
    let sk = CpAbeSecretKey { _d: _d, _d_j: _d_j };
    proof {
        assert(strs_view(_attributes@).subrange(0, _attributes@.len() as int) =~= strs_view(_attributes@));
        assert((_msk._beta.val() * beta_inv.val()) % fr_order() == 1
            && sk._d == g2_mul_of(g2_add_of(_msk._g2_alpha, g2_mul_of(_pk._g2, _r.val())), beta_inv.val()));
        assert(exists|bi: nat| #![auto] (_msk._beta.val() * bi) % fr_order() == 1
            && sk._d == g2_mul_of(g2_add_of(_msk._g2_alpha, g2_mul_of(_pk._g2, _r.val())), bi));
        assert(keygen_shape(sk, *_pk, *_msk)) by {
            assert(g2_mul_of(_pk._g2, _r.val()) == _g_r);
            assert(_r.val() < fr_order());
        }
    }
    Some(sk)
}

/// The position of the entry carrying `name`, if one does.
#[verifier::loop_isolation(false)]
fn find_attr(list: &Vec<CpAbeAttribute>, name: &String) -> (r: Option<usize>)
    ensures
        r is Some ==> {
            &&& r->0 < list@.len()
            &&& list@[r->0 as int]._str@ == name@
            &&& r->0 as int == first_with_name(list@, name@, 0)
        },
        r is None ==> !attr_names(list@).contains(name@)
            && first_with_name(list@, name@, 0) == list@.len() as int,
{
    let mut k: usize = 0;
    while k < list.len()
        invariant
            k <= list@.len(),
            forall|j: int| 0 <= j < k ==> attr_names(list@)[j] != name@,
            first_with_name(list@, name@, 0) == first_with_name(list@, name@, k as int),
        decreases list@.len() - k,
    {
        proof {
            assert(attr_names(list@)[k as int] == list@[k as int]._str@);
        }
        if list[k]._str.eq(name) {
            return Some(k);
        }
        k += 1;
    }
    proof {
        assert(attr_names(list@).len() == list@.len());
        if attr_names(list@).contains(name@) {
            let j = choose|j: int| 0 <= j < attr_names(list@).len() && attr_names(list@)[j] == name@;
            assert(attr_names(list@)[j] != name@);
        }
    }
    None
}

/// Restrict an issued key to a non-empty subset of its attributes,
/// re-randomizing every component so the result is distributed like a fresh
/// issuance for that subset.
#[verifier::loop_isolation(false)]
pub fn delegate(
    _pk: &CpAbePublicKey,
    _sk: &CpAbeSecretKey,
    _subset: &Vec<String>,
) -> (r: Option<CpAbeSecretKey>)
    ensures
        r is Some <==> _subset@.len() > 0 && subset_of(strs_view(_subset@), attr_names(_sk._d_j@)),
        r is Some ==> attr_names(r->0._d_j@) == strs_view(_subset@),
        r is Some ==> delegate_shape(r->0, *_pk, *_sk),
{
    // check that every requested name is held by the key
    let mut j: usize = 0;
    while j < _subset.len()
        invariant
            j <= _subset@.len(),
            forall|i: int| 0 <= i < j ==> attr_names(_sk._d_j@).contains(#[trigger] strs_view(_subset@)[i]),
        decreases _subset@.len() - j,
    {
        match find_attr(&_sk._d_j, &_subset[j]) {
            None => {
                proof {
                    assert(strs_view(_subset@)[j as int] == _subset@[j as int]@);
                }
                return None;
            },
            Some(k) => {
                proof {
                    assert(strs_view(_subset@)[j as int] == _subset@[j as int]@);
                    assert(attr_names(_sk._d_j@)[k as int] == _sk._d_j@[k as int]._str@);
                    assert(attr_names(_sk._d_j@).contains(_subset@[j as int]@));
                }
            },
        }
        j += 1;
    }
    if _subset.len() == 0 {
        return None;
    }
    let _r = fr_random();
    let mut _d_k: Vec<CpAbeAttribute> = Vec::new();
    let mut i: usize = 0;
    proof {
        assert(attr_names(_d_k@) =~= strs_view(_subset@).subrange(0, 0));
    }
    while i < _subset.len()
        invariant
            i <= _subset@.len(),
            attr_names(_d_k@) == strs_view(_subset@).subrange(0, i as int),
            subset_of(strs_view(_subset@), attr_names(_sk._d_j@)),
            forall|j: int| 0 <= j < _d_k@.len() ==> delegate_entry(
                #[trigger] _d_k@[j],
                *_pk,
                _sk._d_j@[first_with_name(_sk._d_j@, _d_k@[j]._str@, 0)],
                g2_mul_of(_pk._g2, _r.val()),
            ),
        decreases _subset@.len() - i,
    {
        proof {
            assert(attr_names(_sk._d_j@).contains(strs_view(_subset@)[i as int]));
            assert(strs_view(_subset@)[i as int] == _subset@[i as int]@);
        }
        let _r_j = fr_random();
        let found = match find_attr(&_sk._d_j, &_subset[i]) {
            None => {
                return None;
            },
            Some(k) => k,
        };
        let h = hash_to_g2(&_pk._g2, &_subset[i]);
        let hr = g2_mul(&h, &_r_j);
        let gr = g2_mul(&_pk._g2, &_r);
        let entry = CpAbeAttribute {
            _str: _subset[i].clone(),
            _g1: g1_add(&_sk._d_j[found]._g1, &g1_mul(&_pk._g1, &_r_j)),
            _g2: g2_add(&g2_add(&_sk._d_j[found]._g2, &hr), &gr),
        };
        let ghost old_dk = _d_k@;
        _d_k.push(entry);
        proof {
            assert(attr_names(_d_k@) =~= attr_names(old_dk).push(_subset@[i as int]@));
            assert(strs_view(_subset@).subrange(0, i + 1 as int)
                =~= strs_view(_subset@).subrange(0, i as int).push(_subset@[i as int]@));
            assert(delegate_entry(
                entry,
                *_pk,
                _sk._d_j@[first_with_name(_sk._d_j@, entry._str@, 0)],
                g2_mul_of(_pk._g2, _r.val()),
            )) by {
                let base = _sk._d_j@[found as int];
                assert(found as int == first_with_name(_sk._d_j@, entry._str@, 0));
                assert(_r_j.val() < fr_order()
                    && entry._g1 == g1_add_of(base._g1, g1_mul_of(_pk._g1, _r_j.val()))
                    && entry._g2 == g2_add_of(
                        g2_add_of(
                            base._g2,
                            g2_mul_of(g2_mul_of(_pk._g2, hash_scalar_of(entry._str@)), _r_j.val()),
                        ),
                        g2_mul_of(_pk._g2, _r.val()),
                    ));
            }
        }
        i += 1;
    }
    let ghost dk_view = _d_k@;
    let nk = CpAbeSecretKey { _d: g2_add(&_sk._d, &g2_mul(&_pk._f, &_r)), _d_j: _d_k };
    proof {
        assert(strs_view(_subset@).subrange(0, _subset@.len() as int) =~= strs_view(_subset@));
        assert(nk._d_j@ == dk_view);
        assert forall|ix: int| 0 <= ix < nk._d_j@.len() implies delegate_entry(
            #[trigger] nk._d_j@[ix],
            *_pk,
            _sk._d_j@[first_with_name(_sk._d_j@, nk._d_j@[ix]._str@, 0)],
            g2_mul_of(_pk._g2, _r.val()),
        ) by {
            assert(nk._d_j@[ix] == dk_view[ix]);
        }
        let ghost rv = _r.val();
        let ghost gr_term = g2_mul_of(_pk._g2, rv);
        assert(delegate_shape(nk, *_pk, *_sk)) by {
            assert(gr_term == g2_mul_of(_pk._g2, rv));
            assert(rv < fr_order());
            assert(nk._d == g2_add_of(_sk._d, g2_mul_of(_pk._f, rv)));
            assert(forall|ix: int| 0 <= ix < nk._d_j@.len() ==> delegate_entry(
                #[trigger] nk._d_j@[ix],
                *_pk,
                _sk._d_j@[first_with_name(_sk._d_j@, nk._d_j@[ix]._str@, 0)],
                g2_mul_of(_pk._g2, rv),
            ));
        }
    }
    Some(nk)
}

/// Encrypt a non-empty payload under a policy text. A fresh root secret is
/// shared down the parsed tree, a fresh session element blinds the sharing,
/// and the payload is sealed under a key derived from the session element.
/// The ciphertext carries one entry per policy leaf, in tree order.
#[verifier::loop_isolation(false)]
pub fn encrypt(
    _pk: &CpAbePublicKey,
    _policy: &String,
    _plaintext: &Vec<u8>,
) -> (r: Option<CpAbeCiphertext>)
    ensures
        r is Some <==> _plaintext@.len() > 0 && spec_parse_policy(_policy@) is Some,
        r is Some ==> {
            &&& r->0._policy@ == _policy@
            &&& wf_policy(r->0._tree)
            &&& view_policy(r->0._tree) == spec_parse_policy(_policy@)->0
            &&& attr_names(r->0._c_y@) == leaf_names_v(spec_parse_policy(_policy@)->0)
            &&& r->0._ct@.len() == _plaintext@.len() + 80
            &&& exists|s: nat, m: rabe_bn::Gt, sv: Seq<nat>| #![auto] encrypt_rel(r->0, *_pk, _plaintext@, s, m, sv)
        },
{
    if _plaintext.len() == 0 {
        return None;
    }
    let t = match parse_policy(_policy.as_str()) {
        None => {
            return None;
        },
        Some(t) => t,
    };
    let _s = fr_random();
    let x = g1_random();
    let y = g2_random();
    let _msg = pairing(&x, &y);
    let shares = match gen_shares_json(&_s, &t) {
        None => {
            return None;
        },
        Some(v) => v,
    };
    let _c = g1_mul(&_pk._h, &_s);
    let egs = gt_pow(&_pk._e_gg_alpha, &_s);
    let _c_p = gt_mul(&egs, &_msg);
    let mut _c_y: Vec<CpAbeAttribute> = Vec::new();
    let mut i: usize = 0;
    proof {
        assert(attr_names(_c_y@) =~= pairs_names(shares@).subrange(0, 0));
    }
    while i < shares.len()
        invariant
            i <= shares@.len(),
            attr_names(_c_y@) == pairs_names(shares@).subrange(0, i as int),
            forall|j: int| 0 <= j < _c_y@.len() ==> {
                let e = #[trigger] _c_y@[j];
                &&& e._g1 == g1_mul_of(_pk._g1, pairs_vals(shares@)[j])
                &&& e._g2 == g2_mul_of(g2_mul_of(_pk._g2, hash_scalar_of(e._str@)), pairs_vals(shares@)[j])
            },
        decreases shares@.len() - i,
    {
        let h = hash_to_g2(&_pk._g2, &shares[i].0);
        let entry = CpAbeAttribute {
            _str: shares[i].0.clone(),
            _g1: g1_mul(&_pk._g1, &shares[i].1),
            _g2: g2_mul(&h, &shares[i].1),
        };
        let ghost old_cy = _c_y@;
        _c_y.push(entry);
        proof {
            assert(attr_names(_c_y@) =~= attr_names(old_cy).push(shares@[i as int].0@));
            assert(pairs_names(shares@).subrange(0, i + 1 as int)
                =~= pairs_names(shares@).subrange(0, i as int).push(shares@[i as int].0@));
            assert(pairs_vals(shares@)[i as int] == shares@[i as int].1.val());
            assert(entry._str@ == shares@[i as int].0@);
        }
        i += 1;
    }
    proof {
        assert(pairs_names(shares@).subrange(0, shares@.len() as int) =~= pairs_names(shares@));
    }
    let key_src = gt_bytes(&_msg);
    let _ct = seal_symmetric(&key_src, _plaintext);
    let ct = CpAbeCiphertext {
        _policy: _policy.clone(),
        _tree: t,
        _c: _c,
        _c_p: _c_p,
        _c_y: _c_y,
        _ct: _ct,
    };
    proof {
        lemma_view_leaf_names(t);
        let ghost sv = pairs_vals(shares@);
        assert(encrypt_rel(ct, *_pk, _plaintext@, _s.val(), _msg, sv)) by {
            assert(_msg == pairing_of(x, y));
            assert(exists|x2: rabe_bn::G1, y2: rabe_bn::G2| #![auto] _msg == pairing_of(x2, y2));
            assert(key_src@ == gt_bytes_of(_msg));
            assert(open_spec(gt_bytes_of(_msg), ct._ct@) == Some(_plaintext@));
            assert(shares_rel(ct._tree, _s.val(), sv));
            assert(sv.len() == ct._c_y@.len());
        }
        assert(exists|s2: nat, m2: rabe_bn::Gt, sv2: Seq<nat>| #![auto]
            encrypt_rel(ct, *_pk, _plaintext@, s2, m2, sv2));
    }
    Some(ct)
}

/// One selected leaf's contribution, folded over the first `k` coefficient
/// entries: for every entry carrying the leaf's name, the quotient of the two
/// pairings of the ciphertext and key entries, raised to that coefficient,
/// multiplied into the running element.
pub open spec fn decrypt_leaf_acc(
    acc: rabe_bn::Gt,
    cj: CpAbeAttribute,
    dj: CpAbeAttribute,
    znames: Seq<Seq<char>>,
    zvals: Seq<nat>,
    k: int,
    name: Seq<char>,
) -> rabe_bn::Gt
    decreases k,
{
    if k <= 0 || k > znames.len() {
        acc
    } else {
        let prev = decrypt_leaf_acc(acc, cj, dj, znames, zvals, k - 1, name);
        if znames[k - 1] == name {
            gt_mul_of(prev, gt_pow_of(
                gt_mul_of(pairing_of(cj._g1, dj._g2), gt_inverse_of(pairing_of(dj._g1, cj._g2))),
                zvals[k - 1],
            ))
        } else {
            prev
        }
    }
}

/// The element accumulated over the first `i` selected leaves, each looked up
/// by name in the ciphertext's and the key's tables.
pub open spec fn decrypt_acc(
    acc: rabe_bn::Gt,
    sk: CpAbeSecretKey,
    ct: CpAbeCiphertext,
    znames: Seq<Seq<char>>,
    zvals: Seq<nat>,
    pruned: Seq<Seq<char>>,
    i: int,
) -> rabe_bn::Gt
    decreases i,
{
    if i <= 0 || i > pruned.len() {
        acc
    } else {
        let prev = decrypt_acc(acc, sk, ct, znames, zvals, pruned, i - 1);
        let cj = ct._c_y@[first_with_name(ct._c_y@, pruned[i - 1], 0)];
        let dj = sk._d_j@[first_with_name(sk._d_j@, pruned[i - 1], 0)];
        decrypt_leaf_acc(prev, cj, dj, znames, zvals, znames.len() as int, pruned[i - 1])
    }
}

/// The target-group element decryption rebuilds: the Lagrange-weighted
/// pairing products of the selected leaves, divided into the pairing of the
/// bound secret and the key's blinded element, divided into the blinded
/// session element.
pub open spec fn decrypt_elem(sk: CpAbeSecretKey, ct: CpAbeCiphertext) -> rabe_bn::Gt {
    let znames = leaf_names(ct._tree);
    let zvals = coeff_vals(ct._tree, 1);
    let pruned = prune_spec(attr_names(sk._d_j@), ct._tree).1;
    let a = decrypt_acc(gt_one_of(0), sk, ct, znames, zvals, pruned, pruned.len() as int);
    gt_mul_of(ct._c_p, gt_inverse_of(gt_mul_of(pairing_of(ct._c, sk._d), gt_inverse_of(a))))
}

/// Every selected leaf has an entry of its name in the ciphertext's table
/// (the key's own table always has one, the selection being drawn from it).
pub open spec fn decrypt_lookups_ok(sk: CpAbeSecretKey, ct: CpAbeCiphertext) -> bool {
    let pruned = prune_spec(attr_names(sk._d_j@), ct._tree).1;
    forall|i: int| 0 <= i < pruned.len() ==> {
        &&& first_with_name(ct._c_y@, #[trigger] pruned[i], 0) < ct._c_y@.len()
        &&& first_with_name(sk._d_j@, pruned[i], 0) < sk._d_j@.len()
    }
}

/// Decrypt a ciphertext with a secret key. The key's attribute set is pruned
/// against the policy first: a non-satisfying key is rejected. On a
/// satisfying key the session element is rebuilt by pairing the selected
/// leaves' entries under their Lagrange coefficients, and the sealed payload
/// is opened; any mismatch surfaces as the same failure.
#[verifier::loop_isolation(false)]
pub fn decrypt(_sk: &CpAbeSecretKey, _ct: &CpAbeCiphertext) -> (r: Option<Vec<u8>>)
    ensures
        r is Some ==> wf_policy(_ct._tree) && satisfies(attr_names(_sk._d_j@), _ct._tree),
        r is Some ==> r->0@.len() + 80 == _ct._ct@.len(),
        wf_policy(_ct._tree) && prune_spec(attr_names(_sk._d_j@), _ct._tree).0
            && decrypt_lookups_ok(*_sk, *_ct) ==> {
            let opened = open_spec(gt_bytes_of(decrypt_elem(*_sk, *_ct)), _ct._ct@);
            &&& (r is Some <==> opened is Some)
            &&& (r is Some ==> Some(r->0@) == opened)
        },
{
    let mut names: Vec<String> = Vec::new();
    let mut i: usize = 0;
    proof {
        assert(strs_view(names@) =~= attr_names(_sk._d_j@).subrange(0, 0));
    }
    while i < _sk._d_j.len()
        invariant
            i <= _sk._d_j@.len(),
            strs_view(names@) == attr_names(_sk._d_j@).subrange(0, i as int),
        decreases _sk._d_j@.len() - i,
    {
        let ghost old_names = names@;
        names.push(_sk._d_j[i]._str.clone());
        proof {
            assert(strs_view(names@) =~= strs_view(old_names).push(_sk._d_j@[i as int]._str@));
            assert(attr_names(_sk._d_j@).subrange(0, i + 1 as int)
                =~= attr_names(_sk._d_j@).subrange(0, i as int).push(_sk._d_j@[i as int]._str@));
        }
        i += 1;
    }
    proof {
        assert(attr_names(_sk._d_j@).subrange(0, _sk._d_j@.len() as int) =~= attr_names(_sk._d_j@));
    }
    let pr = match required_attributes(&names, &_ct._tree) {
        None => {
            return None;
        },
        Some(p) => p,
    };
    if !pr.0 {
        return None;
    }
    proof {
        lemma_prune_satisfies(strs_view(names@), _ct._tree);
    }
    let one = fr_one();
    let _z = match calc_coefficients(&_ct._tree, &one) {
        None => {
            return None;
        },
        Some(z) => z,
    };
    let pruned = pr.1;
    let ghost znames = pairs_names(_z@);
    let ghost zvals = pairs_vals(_z@);
    let ghost psel = prune_spec(attr_names(_sk._d_j@), _ct._tree).1;
    proof {
        assert(strs_view(pruned@) == psel);
    }
    let mut _a = gt_one();
    let mut p: usize = 0;
    while p < pruned.len()
        invariant
            p <= pruned@.len(),
            _a == decrypt_acc(gt_one_of(0), *_sk, *_ct, znames, zvals, psel, p as int),
        decreases pruned@.len() - p,
    {
        proof {
            assert(strs_view(pruned@)[p as int] == pruned@[p as int]@);
        }
        let cj = match find_attr(&_ct._c_y, &pruned[p]) {
            None => {
                proof {
                    assert(!decrypt_lookups_ok(*_sk, *_ct)) by {
                        assert(first_with_name(_ct._c_y@, psel[p as int], 0) == _ct._c_y@.len());
                    }
                }
                return None;
            },
            Some(k) => k,
        };
        let dj = match find_attr(&_sk._d_j, &pruned[p]) {
            None => {
                proof {
                    assert(!decrypt_lookups_ok(*_sk, *_ct)) by {
                        assert(first_with_name(_sk._d_j@, psel[p as int], 0) == _sk._d_j@.len());
                    }
                }
                return None;
            },
            Some(k) => k,
        };
        let ghost a_entry = _a;
        let mut zi: usize = 0;
        while zi < _z.len()
            invariant
                zi <= _z@.len(),
                cj < _ct._c_y@.len(),
                dj < _sk._d_j@.len(),
                cj as int == first_with_name(_ct._c_y@, psel[p as int], 0),
                dj as int == first_with_name(_sk._d_j@, psel[p as int], 0),
                _a == decrypt_leaf_acc(a_entry, _ct._c_y@[cj as int], _sk._d_j@[dj as int],
                    znames, zvals, zi as int, psel[p as int]),
            decreases _z@.len() - zi,
        {
            proof {
                assert(znames[zi as int] == _z@[zi as int].0@);
                assert(zvals[zi as int] == _z@[zi as int].1.val());
            }
            if _z[zi].0.eq(&pruned[p]) {
                let p1 = pairing(&_ct._c_y[cj]._g1, &_sk._d_j[dj]._g2);
                let p2 = pairing(&_sk._d_j[dj]._g1, &_ct._c_y[cj]._g2);
                let quot = gt_mul(&p1, &gt_inverse(&p2));
                let term = gt_pow(&quot, &_z[zi].1);
                _a = gt_mul(&_a, &term);
            }
            zi += 1;
        }
        proof {
            assert(znames.len() == _z@.len());
        }
        p += 1;
    }
    let denom = gt_mul(&pairing(&_ct._c, &_sk._d), &gt_inverse(&_a));
    let _msg = gt_mul(&_ct._c_p, &gt_inverse(&denom));
    proof {
        assert(znames == leaf_names(_ct._tree));
        assert(zvals == coeff_vals(_ct._tree, 1));
        assert(_msg == decrypt_elem(*_sk, *_ct));
    }
    let key_src = gt_bytes(&_msg);
    open_symmetric(&key_src, &_ct._ct)
}

} // verus!
