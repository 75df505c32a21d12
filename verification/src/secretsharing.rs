//! Threshold secret sharing over the scalar field, along a policy tree:
//! share generation with a fresh random polynomial per gate (all shares
//! required at `And`, any single share at `Or`), Lagrange recovery
//! coefficients, and recovery of the root secret from leaf shares.

use vstd::prelude::*;

use crate::parser::parse_policy;
use crate::parser::spec_parse_policy;
use crate::policy::PolicyNode;
use crate::policy::leaf_names_v;
use crate::policy::lemma_view_leaf_names;
use crate::policy::lemma_view_prune;
use crate::policy::prune_v;
use crate::policy::view_policy;
use crate::policy::lemma_wf_upto_index;
use crate::policy::leaf_names;
use crate::policy::leaf_names_upto;
use crate::policy::prune_spec;
use crate::policy::required_attributes;
use crate::policy::strs_view;
use crate::policy::wf_policy;
use crate::policy::wf_upto;
use crate::scalar::Scalar;
use crate::scalar::all_wf;
use crate::scalar::fr_add;
use crate::scalar::fr_inverse;
use crate::scalar::fr_mul;
use crate::scalar::fr_one;
use crate::scalar::fr_order;
use crate::scalar::fr_random;
use crate::scalar::fr_sub;
use crate::scalar::fr_zero;
use crate::scalar::inv_mod;
use crate::scalar::lemma_inv_unique;
use crate::scalar::scalar_copy;
use crate::scalar::scalars_view;

verus! {

broadcast use vstd::seq::group_seq_axioms, vstd::std_specs::vec::group_vec_axioms;

/// Horner evaluation of a polynomial (coefficients by rising degree) at `x`,
/// in the scalar field.
pub open spec fn poly_eval(coeffs: Seq<nat>, x: nat) -> nat
    decreases coeffs.len(),
{
    if coeffs.len() == 0 {
        0
    } else {
        ((coeffs[0] + x * poly_eval(coeffs.drop_first(), x)) as nat) % fr_order()
    }
}

/// The names of a sequence of (name, scalar) pairs.
pub open spec fn pairs_names(v: Seq<(String, Scalar)>) -> Seq<Seq<char>> {
    v.map_values(|p: (String, Scalar)| p.0@)
}

/// The field values of a sequence of (name, scalar) pairs.
pub open spec fn pairs_vals(v: Seq<(String, Scalar)>) -> Seq<nat> {
    v.map_values(|p: (String, Scalar)| p.1.val())
}

/// All scalars of a sequence of (name, scalar) pairs are well-formed.
pub open spec fn pairs_wf(v: Seq<(String, Scalar)>) -> bool {
    forall|i: int| 0 <= i < v.len() ==> (#[trigger] v[i]).1.wf()
}

/// A coefficient sequence `a` of length `k` whose constant term is `secret`
/// and whose evaluations at `0, 1, ..` give the listed values.
pub open spec fn is_poly_shares(a: Seq<nat>, secret: nat, k: int, vals: Seq<nat>) -> bool {
    &&& a.len() == k
    &&& (k >= 1 ==> a[0] == secret)
    &&& forall|i: int| 0 <= i < vals.len() ==> vals[i] == poly_eval(a, i as nat)
}

/// Evaluate the polynomial given by `coeff` (coefficients by rising degree)
/// at `x`, in the scalar field.
#[verifier::loop_isolation(false)]
pub fn polynomial(coeff: &Vec<Scalar>, x: &Scalar) -> (r: Scalar)
    requires
        all_wf(coeff@),
        x.wf(),
    ensures
        r.wf(),
        r.val() == poly_eval(scalars_view(coeff@), x.val()),
{
    let ghost s = scalars_view(coeff@);
    let mut acc = fr_zero();
    let mut j: usize = coeff.len();
    proof {
        assert(s.subrange(j as int, s.len() as int) =~= Seq::<nat>::empty());
    }
    while j > 0
        invariant
            j <= coeff@.len(),
            acc.wf(),
            acc.val() == poly_eval(s.subrange(j as int, s.len() as int), x.val()),
        decreases j,
    {
        j -= 1;
        let t = fr_mul(x, &acc);
        acc = fr_add(&coeff[j], &t);
        proof {
            let tail = s.subrange(j as int, s.len() as int);
            assert(tail.drop_first() =~= s.subrange(j + 1 as int, s.len() as int));
            assert(tail[0] == coeff@[j as int].val());
            vstd::arithmetic::div_mod::lemma_add_mod_noop_right(
                coeff@[j as int].val() as int,
                (x.val() * poly_eval(tail.drop_first(), x.val())) as int,
                fr_order() as int,
            );
        }
    }
    proof {
        assert(s.subrange(0, s.len() as int) =~= s);
    }
    acc
}

/// Share `secret` with a fresh polynomial of degree `k - 1`: the result holds
/// the evaluations at `0, 1, .., n` (so position 0 carries the secret itself),
/// or nothing when `k > n`.
#[verifier::loop_isolation(false)]
pub fn gen_shares(secret: &Scalar, k: usize, n: usize) -> (r: Vec<Scalar>)
    requires
        secret.wf(),
        n < usize::MAX,
    ensures
        all_wf(r@),
        k <= n ==> r@.len() == n + 1,
        k > n ==> r@.len() == 0,
        k <= n ==> exists|a: Seq<nat>|
            is_poly_shares(a, secret.val(), k as int, scalars_view(r@)),
        1 <= k <= n ==> r@[0].val() == secret.val(),
        k == 1 && k <= n ==> forall|i: int| 0 <= i < r@.len() ==> (#[trigger] r@[i]).val() == secret.val(),
{
    let mut shares: Vec<Scalar> = Vec::new();
    if k <= n {
        let mut a: Vec<Scalar> = Vec::new();
        let mut i: usize = 0;
        while i < k
            invariant
                a@.len() == i,
                i <= k,
                all_wf(a@),
                i >= 1 && k >= 1 ==> a@[0].val() == secret.val(),
            decreases k - i,
        {
            if i == 0 {
                a.push(scalar_copy(secret));
            } else {
                a.push(fr_random());
            }
            i += 1;
        }
        let ghost av = scalars_view(a@);
        let one = fr_one();
        let mut xv = fr_zero();
        let mut c: usize = 0;
        while c <= n
            invariant
                c <= n + 1,
                xv.wf(),
                xv.val() == c,
                shares@.len() == c,
                all_wf(shares@),
                forall|j: int| 0 <= j < c ==> scalars_view(shares@)[j] == poly_eval(av, j as nat),
            decreases n + 1 - c,
        {
            let sh = polynomial(&a, &xv);
            let ghost old_shares = shares@;
            shares.push(sh);
            proof {
                assert(scalars_view(shares@) =~= scalars_view(old_shares).push(sh.val()));
                assert(usize::MAX as nat + 2 < fr_order());
            }
            xv = fr_add(&xv, &one);
            c += 1;
        }
        proof {
            assert(is_poly_shares(av, secret.val(), k as int, scalars_view(shares@)));
            vstd::arithmetic::div_mod::lemma_small_mod(secret.val(), fr_order());
            if k >= 1 {
                assert(scalars_view(shares@)[0] == poly_eval(av, 0));
                assert(av.drop_first().len() == (k - 1) as nat);
                if k == 1 {
                    assert(av.drop_first() =~= Seq::<nat>::empty());
                    assert forall|i: int| 0 <= i < shares@.len() implies (#[trigger] shares@[i]).val()
                        == secret.val() by {
                        assert(scalars_view(shares@)[i] == poly_eval(av, i as nat));
                        assert(poly_eval(Seq::<nat>::empty(), i as nat) == 0);
                        assert(poly_eval(av, i as nat) == ((av[0] + (i as nat) * 0) as nat) % fr_order());
                    }
                }
            }
        }
    }
    shares
}

/// In the field, two distinct reduced values have a non-zero difference.
proof fn lemma_sub_nonzero(a: nat, b: nat)
    requires
        a < fr_order(),
        b < fr_order(),
        a != b,
    ensures
        ((a + fr_order() - b) as nat) % fr_order() != 0,
{
    let m = fr_order() as int;
    let d = a + m - b;
    if a > b {
        vstd::arithmetic::div_mod::lemma_mod_add_multiples_vanish(a - b, m);
        vstd::arithmetic::div_mod::lemma_small_mod((a - b) as nat, fr_order());
    } else {
        vstd::arithmetic::div_mod::lemma_small_mod(d as nat, fr_order());
    }
}

/// One factor of a Lagrange basis coefficient at zero: for position `j`
/// other than `i`, the field quotient `(0 - x_j) / (x_i - x_j)`.
pub open spec fn lag_term(vals: Seq<nat>, i: int, j: int) -> nat {
    if i == j {
        1
    } else {
        let num = ((fr_order() - vals[j]) as nat) % fr_order();
        let den = (((vals[i] + fr_order() - vals[j]) as nat)) % fr_order();
        (num * inv_mod(den)) % fr_order()
    }
}

/// The running product of the first `j` factors of the Lagrange basis
/// coefficient of position `i`.
pub open spec fn lag_coeff(vals: Seq<nat>, i: int, j: int) -> nat
    decreases j,
{
    if j <= 0 {
        1
    } else {
        (lag_coeff(vals, i, j - 1) * lag_term(vals, i, j - 1)) % fr_order()
    }
}

/// The Lagrange basis coefficients at zero for the distinct evaluation points
/// in `list`: for each `i` the product of `(0 - x_j) / (x_i - x_j)` over all
/// other positions `j`.
#[verifier::loop_isolation(false)]
pub fn recover_coefficients(list: &Vec<Scalar>) -> (r: Vec<Scalar>)
    requires
        all_wf(list@),
        forall|i: int, j: int|
            0 <= i < list@.len() && 0 <= j < list@.len() && i != j
                ==> scalars_view(list@)[i] != scalars_view(list@)[j],
    ensures
        r@.len() == list@.len(),
        all_wf(r@),
        forall|i: int| 0 <= i < r@.len()
            ==> (#[trigger] r@[i]).val() == lag_coeff(scalars_view(list@), i, list@.len() as int),
{
    let ghost vals = scalars_view(list@);
    let zero = fr_zero();
    let mut out: Vec<Scalar> = Vec::new();
    let mut i: usize = 0;
    while i < list.len()
        invariant
            out@.len() == i,
            i <= list@.len(),
            all_wf(out@),
            zero.wf(),
            zero.val() == 0,
            forall|k: int| 0 <= k < i ==> (#[trigger] out@[k]).val() == lag_coeff(vals, k, list@.len() as int),
        decreases list@.len() - i,
    {
        let mut acc = fr_one();
        let mut j: usize = 0;
        while j < list.len()
            invariant
                j <= list@.len(),
                i < list@.len(),
                acc.wf(),
                acc.val() == lag_coeff(vals, i as int, j as int),
                zero.wf(),
                zero.val() == 0,
            decreases list@.len() - j,
        {
            proof {
                assert(vals[i as int] == list@[i as int].val());
                assert(vals[j as int] == list@[j as int].val());
            }
            if j != i {
                let num = fr_sub(&zero, &list[j]);
                let den = fr_sub(&list[i], &list[j]);
                proof {
                    lemma_sub_nonzero(list@[i as int].val(), list@[j as int].val());
                }
                let inv = fr_inverse(&den);
                let term = fr_mul(&num, &inv);
                proof {
                    assert(den.val() < fr_order());
                    assert((den.val() * inv.val()) % fr_order() == 1);
                    assert(inv_mod(den.val()) < fr_order()
                        && (den.val() * inv_mod(den.val())) % fr_order() == 1) by {
                        assert(inv.val() < fr_order() && (den.val() * inv.val()) % fr_order() == 1);
                    }
                    lemma_inv_unique(den.val(), inv.val(), inv_mod(den.val()));
                    assert(term.val() == lag_term(vals, i as int, j as int));
                }
                acc = fr_mul(&acc, &term);
            } else {
                proof {
                    vstd::arithmetic::div_mod::lemma_small_mod(acc.val(), fr_order());
                    assert(lag_coeff(vals, i as int, j + 1 as int)
                        == (lag_coeff(vals, i as int, j as int) * 1) % fr_order());
                }
            }
            j += 1;
        }
        out.push(acc);
        i += 1;
    }
    out
}

/// The per-leaf share values of a sharing of `secret` down a tree: at a leaf
/// the incoming value itself; at an `And` gate a polynomial with the incoming
/// value as constant term and one fresh coefficient per further child,
/// evaluated at the children's positions; at an `Or` gate the constant
/// polynomial, so every child receives the incoming value.
pub open spec fn shares_rel(t: PolicyNode, secret: nat, vals: Seq<nat>) -> bool
    decreases t, 0int,
{
    match t {
        PolicyNode::Leaf(_) => vals == seq![secret],
        PolicyNode::And(cs) => exists|a: Seq<nat>| #![auto] {
            &&& a.len() == cs@.len()
            &&& (a.len() >= 1 ==> a[0] == secret)
            &&& shares_rel_children(cs@, cs@.len() as int, a, vals)
        },
        PolicyNode::Or(cs) => shares_rel_children(cs@, cs@.len() as int, seq![secret], vals),
    }
}

/// The first `k` children's share segments, child `k` receiving the
/// polynomial's value at position `k`.
pub open spec fn shares_rel_children(ts: Seq<PolicyNode>, k: int, a: Seq<nat>, vals: Seq<nat>) -> bool
    decreases ts, k,
{
    if k <= 0 || k > ts.len() {
        true
    } else {
        shares_rel_children(ts, k - 1, a, vals) && shares_rel(
            ts[k - 1],
            poly_eval(a, k as nat),
            vals.subrange(
                leaf_names_upto(ts, k - 1).len() as int,
                leaf_names_upto(ts, k).len() as int,
            ),
        )
    }
}

/// The share relation over a value prefix is kept when values are appended.
proof fn lemma_rel_children_extend(ts: Seq<PolicyNode>, k: int, a: Seq<nat>, v: Seq<nat>, w: Seq<nat>)
    requires
        shares_rel_children(ts, k, a, v),
        k <= ts.len(),
        leaf_names_upto(ts, k).len() <= v.len(),
    ensures
        shares_rel_children(ts, k, a, v + w),
    decreases k,
{
    if 0 < k {
        assert(leaf_names_upto(ts, k - 1).len() <= leaf_names_upto(ts, k).len());
        lemma_rel_children_extend(ts, k - 1, a, v, w);
        assert((v + w).subrange(
            leaf_names_upto(ts, k - 1).len() as int,
            leaf_names_upto(ts, k).len() as int,
        ) =~= v.subrange(
            leaf_names_upto(ts, k - 1).len() as int,
            leaf_names_upto(ts, k).len() as int,
        ));
    }
}

/// Share a secret down a child list: child `i` receives `shares[i + 1]`.
#[verifier::loop_isolation(false)]
fn share_node_list(shares: &Vec<Scalar>, cs: &Vec<PolicyNode>, a: Ghost<Seq<nat>>) -> (r: Option<Vec<(String, Scalar)>>)
    requires
        all_wf(shares@),
        shares@.len() == cs@.len() + 1,
        forall|i: int| 1 <= i <= cs@.len() ==> scalars_view(shares@)[i] == poly_eval(a@, i as nat),
    ensures
        r is Some <==> wf_upto(cs@, cs@.len() as int),
        r is Some ==> {
            &&& pairs_names(r->Some_0@) == leaf_names_upto(cs@, cs@.len() as int)
            &&& shares_rel_children(cs@, cs@.len() as int, a@, pairs_vals(r->Some_0@))
            &&& pairs_wf(r->Some_0@)
        },
    decreases cs@, 1int,
{
    let mut out: Vec<(String, Scalar)> = Vec::new();
    let mut i: usize = 0;
    proof {
        assert(pairs_names(out@) =~= leaf_names_upto(cs@, 0));
        assert(pairs_vals(out@) =~= Seq::<nat>::empty());
    }
    while i < cs.len()
        invariant
            i <= cs@.len(),
            wf_upto(cs@, i as int),
            pairs_names(out@) == leaf_names_upto(cs@, i as int),
            shares_rel_children(cs@, i as int, a@, pairs_vals(out@)),
            pairs_wf(out@),
        decreases cs@.len() - i,
    {
        proof {
            assert(scalars_view(shares@)[i + 1 as int] == shares@[i + 1 as int].val());
        }
        let c = gen_shares_json(&shares[i + 1], &cs[i]);
        match c {
            None => {
                proof {
                    if wf_upto(cs@, cs@.len() as int) {
                        lemma_wf_upto_index(cs@, i as int, cs@.len() as int);
                    }
                }
                return None;
            },
            Some(mut lst) => {
                let ghost old_out = out@;
                let ghost old_lst = lst@;
                out.append(&mut lst);
                proof {
                    assert(pairs_names(out@) =~= pairs_names(old_out) + pairs_names(old_lst));
                    assert(pairs_vals(out@) =~= pairs_vals(old_out) + pairs_vals(old_lst));
                    assert(pairs_vals(old_out).len() == leaf_names_upto(cs@, i as int).len());
                    lemma_rel_children_extend(cs@, i as int, a@, pairs_vals(old_out), pairs_vals(old_lst));
                    assert(pairs_vals(out@).subrange(
                        leaf_names_upto(cs@, i as int).len() as int,
                        leaf_names_upto(cs@, i + 1 as int).len() as int,
                    ) =~= pairs_vals(old_lst));
                }
            },
        }
        i += 1;
    }
    Some(out)
}

/// Share `secret` down a policy tree: a constant polynomial at `Or` gates
/// (any child share recovers), a full-threshold one at `And` gates (all child
/// shares required), the incoming share itself at a leaf. The returned table
/// carries one share per leaf name, in tree order; `None` exactly on
/// malformed trees.
#[verifier::loop_isolation(false)]
pub fn gen_shares_json(secret: &Scalar, node: &PolicyNode) -> (r: Option<Vec<(String, Scalar)>>)
    requires
        secret.wf(),
    ensures
        r is Some <==> wf_policy(*node),
        r is Some ==> {
            &&& pairs_names(r->Some_0@) == leaf_names(*node)
            &&& shares_rel(*node, secret.val(), pairs_vals(r->Some_0@))
            &&& pairs_wf(r->Some_0@)
        },
    decreases *node, 0int,
{
    match node {
        PolicyNode::Leaf(s) => {
            if s.as_str().is_empty() {
                None
            } else {
                let out: Vec<(String, Scalar)> = vec![(s.clone(), scalar_copy(secret))];
                proof {
                    assert(pairs_names(out@) =~= seq![s@]);
                    assert(pairs_vals(out@) =~= seq![secret.val()]);
                }
                Some(out)
            }
        },
        PolicyNode::And(cs) => {
            if cs.len() < 2 || cs.len() == usize::MAX {
                return None;
            }
            let shares = gen_shares(secret, cs.len(), cs.len());
            let ghost a = choose|a: Seq<nat>|
                is_poly_shares(a, secret.val(), cs@.len() as int, scalars_view(shares@));
            proof {
                assert(is_poly_shares(a, secret.val(), cs@.len() as int, scalars_view(shares@)));
            }
            let r = share_node_list(&shares, cs, Ghost(a));
            proof {
                if r is Some {
                    assert(shares_rel(*node, secret.val(), pairs_vals(r->Some_0@)));
                }
            }
            r
        },
        PolicyNode::Or(cs) => {
            if cs.len() < 2 || cs.len() == usize::MAX {
                return None;
            }
            let shares = gen_shares(secret, 1, cs.len());
            let ghost a = choose|a: Seq<nat>|
                is_poly_shares(a, secret.val(), 1int, scalars_view(shares@));
            proof {
                assert(is_poly_shares(a, secret.val(), 1int, scalars_view(shares@)));
                assert(a =~= seq![secret.val()]);
            }
            let r = share_node_list(&shares, cs, Ghost(a));
            proof {
                if r is Some {
                    assert(shares_rel(*node, secret.val(), pairs_vals(r->Some_0@)));
                }
            }
            r
        },
    }
}

/// The evaluation points of a gate's sharing: 1, 2, .., n.
pub open spec fn gate_points(n: int) -> Seq<nat> {
    Seq::new(n as nat, |j: int| (j + 1) as nat)
}

/// The recovery coefficient of every leaf below a node, in tree order, when
/// the node itself carries the running coefficient `w`: at an `And` gate each
/// child's running coefficient picks up the child's Lagrange basis
/// coefficient, at an `Or` gate it passes through unchanged.
pub open spec fn coeff_vals(t: PolicyNode, w: nat) -> Seq<nat>
    decreases t, 0int,
{
    match t {
        PolicyNode::Leaf(_) => seq![w],
        PolicyNode::And(cs) => coeff_vals_and(cs@, w, cs@.len() as int),
        PolicyNode::Or(cs) => coeff_vals_or(cs@, w, cs@.len() as int),
    }
}

/// The coefficients below the first `i` children of an `And` gate.
pub open spec fn coeff_vals_and(ts: Seq<PolicyNode>, w: nat, i: int) -> Seq<nat>
    decreases ts, i,
{
    if i <= 0 || i > ts.len() {
        Seq::empty()
    } else {
        coeff_vals_and(ts, w, i - 1) + coeff_vals(
            ts[i - 1],
            (w * lag_coeff(gate_points(ts.len() as int), i - 1, ts.len() as int)) % fr_order(),
        )
    }
}

/// The coefficients below the first `i` children of an `Or` gate.
pub open spec fn coeff_vals_or(ts: Seq<PolicyNode>, w: nat, i: int) -> Seq<nat>
    decreases ts, i,
{
    if i <= 0 || i > ts.len() {
        Seq::empty()
    } else {
        coeff_vals_or(ts, w, i - 1) + coeff_vals(ts[i - 1], w)
    }
}

/// The coefficients below the first `i` nodes of a child list, each child
/// carrying its own running coefficient.
pub open spec fn coeff_vals_list(ts: Seq<PolicyNode>, wv: Seq<nat>, i: int) -> Seq<nat>
    decreases ts, i,
{
    if i <= 0 || i > ts.len() {
        Seq::empty()
    } else {
        coeff_vals_list(ts, wv, i - 1) + coeff_vals(ts[i - 1], wv[i - 1])
    }
}

proof fn lemma_gate_weights_all(ts: Seq<PolicyNode>, wv: Seq<nat>, w: nat, i: int)
    requires
        wv.len() == ts.len(),
        forall|k: int| 0 <= k < ts.len() ==> wv[k]
            == (w * lag_coeff(gate_points(ts.len() as int), k, ts.len() as int)) % fr_order(),
    ensures
        coeff_vals_list(ts, wv, i) == coeff_vals_and(ts, w, i),
    decreases i,
{
    if i > 0 {
        lemma_gate_weights_all(ts, wv, w, i - 1);
    }
}

/// An unchanged running coefficient at every child gives the `Or` gate
/// coefficient table.
proof fn lemma_gate_weights_any(ts: Seq<PolicyNode>, wv: Seq<nat>, w: nat, i: int)
    requires
        wv.len() == ts.len(),
        forall|k: int| 0 <= k < ts.len() ==> wv[k] == w,
    ensures
        coeff_vals_list(ts, wv, i) == coeff_vals_or(ts, w, i),
    decreases i,
{
    if i > 0 {
        lemma_gate_weights_any(ts, wv, w, i - 1);
    }
}

/// Multiply the per-child weights into each child's coefficient table.
#[verifier::loop_isolation(false)]
fn coeff_node_list(cs: &Vec<PolicyNode>, ws: &Vec<Scalar>) -> (r: Option<Vec<(String, Scalar)>>)
    requires
        all_wf(ws@),
        ws@.len() == cs@.len(),
    ensures
        r is Some <==> wf_upto(cs@, cs@.len() as int),
        r is Some ==> {
            &&& pairs_names(r->Some_0@) == leaf_names_upto(cs@, cs@.len() as int)
            &&& pairs_vals(r->Some_0@) == coeff_vals_list(cs@, scalars_view(ws@), cs@.len() as int)
            &&& pairs_wf(r->Some_0@)
        },
    decreases cs@, 1int,
{
    let mut out: Vec<(String, Scalar)> = Vec::new();
    let mut i: usize = 0;
    proof {
        assert(pairs_names(out@) =~= leaf_names_upto(cs@, 0));
        assert(pairs_vals(out@) =~= coeff_vals_list(cs@, scalars_view(ws@), 0));
    }
    while i < cs.len()
        invariant
            i <= cs@.len(),
            wf_upto(cs@, i as int),
            pairs_names(out@) == leaf_names_upto(cs@, i as int),
            pairs_vals(out@) == coeff_vals_list(cs@, scalars_view(ws@), i as int),
            pairs_wf(out@),
        decreases cs@.len() - i,
    {
        proof {
            assert(scalars_view(ws@)[i as int] == ws@[i as int].val());
        }
        let c = calc_coefficients(&cs[i], &ws[i]);
        match c {
            None => {
                proof {
                    if wf_upto(cs@, cs@.len() as int) {
                        lemma_wf_upto_index(cs@, i as int, cs@.len() as int);
                    }
                }
                return None;
            },
            Some(mut lst) => {
                let ghost old_out = out@;
                let ghost old_lst = lst@;
                out.append(&mut lst);
                proof {
                    assert(pairs_names(out@) =~= pairs_names(old_out) + pairs_names(old_lst));
                    assert(pairs_vals(out@) =~= pairs_vals(old_out) + pairs_vals(old_lst));
                }
            },
        }
        i += 1;
    }
    Some(out)
}

/// The Lagrange recovery coefficient of every leaf of the policy, in tree
/// order: the running product of the Lagrange basis coefficients along the
/// path from the root, starting from `coeff`. `None` exactly on malformed
/// trees.
#[verifier::loop_isolation(false)]
pub fn calc_coefficients(node: &PolicyNode, coeff: &Scalar) -> (r: Option<Vec<(String, Scalar)>>)
    requires
        coeff.wf(),
    ensures
        r is Some <==> wf_policy(*node),
        r is Some ==> {
            &&& pairs_names(r->Some_0@) == leaf_names(*node)
            &&& pairs_vals(r->Some_0@) == coeff_vals(*node, coeff.val())
            &&& pairs_wf(r->Some_0@)
        },
    decreases *node, 0int,
{
    match node {
        PolicyNode::Leaf(s) => {
            if s.as_str().is_empty() {
                None
            } else {
                let out: Vec<(String, Scalar)> = vec![(s.clone(), scalar_copy(coeff))];
                proof {
                    assert(pairs_names(out@) =~= seq![s@]);
                    assert(pairs_vals(out@) =~= seq![coeff.val()]);
                }
                Some(out)
            }
        },
        PolicyNode::And(cs) => {
            if cs.len() < 2 || cs.len() == usize::MAX {
                return None;
            }
            let len = cs.len();
            let one = fr_one();
            let mut xs: Vec<Scalar> = Vec::new();
            let mut cur = fr_one();
            let mut i: usize = 0;
            while i < len
                invariant
                    xs@.len() == i,
                    i <= len,
                    cur.wf(),
                    cur.val() == i + 1,
                    all_wf(xs@),
                    forall|j: int| 0 <= j < i ==> scalars_view(xs@)[j] == j + 1,
                decreases len - i,
            {
                let ghost old_xs = xs@;
                xs.push(scalar_copy(&cur));
                cur = fr_add(&cur, &one);
                proof {
                    assert(scalars_view(xs@) =~= scalars_view(old_xs).push(xs@.last().val()));
                    assert(usize::MAX as nat + 2 < fr_order());
                    vstd::arithmetic::div_mod::lemma_small_mod((i + 2) as nat, fr_order());
                }
                i += 1;
            }
            proof {
                assert(scalars_view(xs@) =~= gate_points(len as int));
            }
            let lam = recover_coefficients(&xs);
            let mut ws: Vec<Scalar> = Vec::new();
            let mut i2: usize = 0;
            while i2 < len
                invariant
                    ws@.len() == i2,
                    i2 <= len,
                    all_wf(ws@),
                    lam@.len() == len,
                    all_wf(lam@),
                    forall|k: int| 0 <= k < i2 ==> scalars_view(ws@)[k]
                        == (coeff.val() * lag_coeff(gate_points(len as int), k, len as int)) % fr_order(),
                decreases len - i2,
            {
                let ghost old_ws = ws@;
                ws.push(fr_mul(coeff, &lam[i2]));
                proof {
                    assert(scalars_view(ws@) =~= scalars_view(old_ws).push(ws@.last().val()));
                    assert(lam@[i2 as int].val() == lag_coeff(gate_points(len as int), i2 as int, len as int));
                }
                i2 += 1;
            }
            let r = coeff_node_list(cs, &ws);
            proof {
                if r is Some {
                    lemma_gate_weights_all(cs@, scalars_view(ws@), coeff.val(), cs@.len() as int);
                }
            }
            r
        },
        PolicyNode::Or(cs) => {
            if cs.len() < 2 || cs.len() == usize::MAX {
                return None;
            }
            let mut single: Vec<Scalar> = Vec::new();
            single.push(fr_one());
            proof {
                assert(scalars_view(single@) =~= seq![1nat]);
            }
            let lam = recover_coefficients(&single);
            let w = fr_mul(coeff, &lam[0]);
            proof {
                assert(lam@[0].val() == lag_coeff(seq![1nat], 0, 1));
                assert(lag_coeff(seq![1nat], 0, 1) == 1) by {
                    assert(lag_coeff(seq![1nat], 0, 1)
                        == (lag_coeff(seq![1nat], 0, 0) * lag_term(seq![1nat], 0, 0)) % fr_order());
                    assert(lag_coeff(seq![1nat], 0, 0) == 1);
                    assert(lag_term(seq![1nat], 0, 0) == 1);
                    assert(1nat * 1nat == 1nat) by (nonlinear_arith);
                    vstd::arithmetic::div_mod::lemma_small_mod(1nat, fr_order());
                }
                vstd::arithmetic::div_mod::lemma_small_mod(coeff.val(), fr_order());
                assert(w.val() == (coeff.val() * 1) % fr_order());
                assert(w.val() == coeff.val());
            }
            let mut ws: Vec<Scalar> = Vec::new();
            let mut i: usize = 0;
            while i < cs.len()
                invariant
                    ws@.len() == i,
                    i <= cs@.len(),
                    all_wf(ws@),
                    w.wf(),
                    w.val() == coeff.val(),
                    forall|k: int| 0 <= k < i ==> scalars_view(ws@)[k] == coeff.val(),
                decreases cs@.len() - i,
            {
                let ghost old_ws = ws@;
                ws.push(scalar_copy(&w));
                proof {
                    assert(scalars_view(ws@) =~= scalars_view(old_ws).push(ws@.last().val()));
                }
                i += 1;
            }
            let r = coeff_node_list(cs, &ws);
            proof {
                if r is Some {
                    lemma_gate_weights_any(cs@, scalars_view(ws@), coeff.val(), cs@.len() as int);
                }
            }
            r
        },
    }
}

/// Parse the policy text and share `secret` down the tree; `None` when the
/// text does not parse to a well-formed policy.
pub fn gen_shares_str(secret: &Scalar, policy: &String) -> (r: Option<Vec<(String, Scalar)>>)
    requires
        secret.wf(),
    ensures
        r is Some <==> spec_parse_policy(policy@) is Some,
        r is Some ==> {
            &&& pairs_names(r->Some_0@) == leaf_names_v(spec_parse_policy(policy@)->0)
            &&& pairs_wf(r->Some_0@)
            &&& exists|t: PolicyNode| #![auto] view_policy(t) == spec_parse_policy(policy@)->0
                && shares_rel(t, secret.val(), pairs_vals(r->Some_0@))
        },
{
    match parse_policy(policy.as_str()) {
        None => None,
        Some(t) => {
            let r = gen_shares_json(secret, &t);
            proof {
                if r is Some {
                    lemma_view_leaf_names(t);
                    assert(view_policy(t) == spec_parse_policy(policy@)->0
                        && shares_rel(t, secret.val(), pairs_vals(r->Some_0@)));
                }
            }
            r
        },
    }
}

/// Parse the policy text and compute every leaf's Lagrange recovery
/// coefficient, starting from the coefficient one at the root.
pub fn calc_coefficients_str(policy: &String) -> (r: Option<Vec<(String, Scalar)>>)
    ensures
        r is Some <==> spec_parse_policy(policy@) is Some,
        r is Some ==> {
            &&& pairs_names(r->Some_0@) == leaf_names_v(spec_parse_policy(policy@)->0)
            &&& pairs_wf(r->Some_0@)
            &&& exists|t: PolicyNode| #![auto] view_policy(t) == spec_parse_policy(policy@)->0
                && pairs_vals(r->Some_0@) == coeff_vals(t, 1)
        },
{
    match parse_policy(policy.as_str()) {
        None => None,
        Some(t) => {
            let one = fr_one();
            let r = calc_coefficients(&t, &one);
            proof {
                if r is Some {
                    lemma_view_leaf_names(t);
                    assert(view_policy(t) == spec_parse_policy(policy@)->0
                        && pairs_vals(r->Some_0@) == coeff_vals(t, 1));
                }
            }
            r
        },
    }
}

/// Parse the policy text and prune it against an attribute set: whether the
/// set satisfies the policy, and a minimal witness leaf set.
pub fn calc_pruned_str(attr: &Vec<String>, policy: &String) -> (r: Option<(bool, Vec<String>)>)
    ensures
        r is Some <==> spec_parse_policy(policy@) is Some,
        r is Some ==> {
            let p = prune_v(strs_view(attr@), spec_parse_policy(policy@)->0);
            &&& r->Some_0.0 == p.0
            &&& strs_view(r->Some_0.1@) == p.1
        },
{
    match parse_policy(policy.as_str()) {
        None => None,
        Some(t) => {
            let r = required_attributes(attr, &t);
            proof {
                lemma_view_prune(strs_view(attr@), t);
            }
            r
        },
    }
}

/// The weighted sum of the first `i` shares under the coefficients, in the
/// field.
pub open spec fn dot_mod(cs: Seq<nat>, ss: Seq<nat>, i: int) -> nat
    decreases i,
{
    if i <= 0 {
        0
    } else {
        (dot_mod(cs, ss, i - 1) + (cs[i - 1] * ss[i - 1]) % fr_order()) % fr_order()
    }
}

/// Sharing and recovery round-trip at a two-child `And` gate over leaves,
/// the smallest gate where every share is required: for every sharing
/// polynomial with constant term `a0`, the two leaf shares (the evaluations
/// at one and two), weighted by the leaves' recovery coefficients, sum back
/// to `a0` in the field.
pub proof fn lemma_and_pair_recovery(t: PolicyNode, a0: nat, a1: nat)
    requires
        t is And,
        t->And_0@.len() == 2,
        t->And_0@[0] is Leaf,
        t->And_0@[1] is Leaf,
        a0 < fr_order(),
        a1 < fr_order(),
    ensures
        dot_mod(
            coeff_vals(t, 1),
            seq![poly_eval(seq![a0, a1], 1), poly_eval(seq![a0, a1], 2)],
            2,
        ) == a0,
{
    let m = fr_order();
    let p = gate_points(2);
    assert(p =~= seq![1nat, 2nat]);
    vstd::arithmetic::div_mod::lemma_small_mod(1nat, m);
    vstd::arithmetic::div_mod::lemma_small_mod(2nat, m);
    vstd::arithmetic::div_mod::lemma_small_mod((m - 1) as nat, m);
    vstd::arithmetic::div_mod::lemma_small_mod((m - 2) as nat, m);
    vstd::arithmetic::div_mod::lemma_small_mod(a0, m);
    vstd::arithmetic::div_mod::lemma_small_mod(a1, m);

    // the inverse of the field's minus one is itself, and one is its own
    assert(((m - 1) as nat * ((m - 1) as nat)) % m == 1) by {
        assert((m - 1) * (m - 1) == m * (m - 2) + 1) by (nonlinear_arith)
            requires
                m >= 2,
        ;
        vstd::arithmetic::div_mod::lemma_mod_multiples_vanish((m - 2) as int, 1, m as int);
    }
    assert(inv_mod((m - 1) as nat) == (m - 1) as nat) by {
        assert(inv_mod((m - 1) as nat) < m
            && ((m - 1) as nat * inv_mod((m - 1) as nat)) % m == 1);
        lemma_inv_unique((m - 1) as nat, (m - 1) as nat, inv_mod((m - 1) as nat));
    }
    assert((1nat * 1nat) % m == 1);
    assert(inv_mod(1nat) == 1nat) by {
        assert(inv_mod(1nat) < m && (1nat * inv_mod(1nat)) % m == 1);
        lemma_inv_unique(1nat, 1nat, inv_mod(1nat));
    }

    // the two Lagrange coefficients: two, and the field's minus one
    assert(lag_term(p, 0, 1) == 2) by {
        assert(((1nat + m - 2) as nat) % m == (m - 1) as nat);
        assert(((m - 2) as nat) % m == (m - 2) as nat);
        assert(((m - 2) as nat * ((m - 1) as nat)) % m == 2) by {
            assert((m - 2) * (m - 1) == m * (m - 3) + 2) by (nonlinear_arith)
                requires
                    m >= 3,
            ;
            vstd::arithmetic::div_mod::lemma_mod_multiples_vanish((m - 3) as int, 2, m as int);
        }
    }
    assert(lag_coeff(p, 0, 2) == 2) by {
        assert(lag_coeff(p, 0, 0) == 1);
        assert(lag_term(p, 0, 0) == 1);
        assert(lag_coeff(p, 0, 1) == (1nat * 1nat) % m);
        assert(lag_coeff(p, 0, 2) == (1nat * lag_term(p, 0, 1)) % m);
    }
    assert(lag_term(p, 1, 0) == (m - 1) as nat) by {
        assert(((2nat + m - 1) as nat) % m == 1) by {
            vstd::arithmetic::div_mod::lemma_mod_multiples_vanish(1, 1, m as int);
        }
        assert(((m - 1) as nat) % m == (m - 1) as nat);
        assert(((m - 1) as nat * 1nat) % m == (m - 1) as nat);
    }
    assert(lag_coeff(p, 1, 2) == (m - 1) as nat) by {
        assert(lag_coeff(p, 1, 0) == 1);
        assert(lag_coeff(p, 1, 1) == (1nat * lag_term(p, 1, 0)) % m);
        assert(lag_coeff(p, 1, 1) == (m - 1) as nat);
        assert(lag_term(p, 1, 1) == 1);
        assert(lag_coeff(p, 1, 2) == (((m - 1) as nat) * 1nat) % m);
    }

    // the coefficient table of the two-child node
    let cs = t->And_0@;
    let w0 = (1nat * lag_coeff(gate_points(cs.len() as int), 0, cs.len() as int)) % m;
    let w1 = (1nat * lag_coeff(gate_points(cs.len() as int), 1, cs.len() as int)) % m;
    assert(coeff_vals(cs[0], w0) == seq![w0]);
    assert(coeff_vals(cs[1], w1) == seq![w1]);
    assert(coeff_vals_and(cs, 1, 0) == Seq::<nat>::empty());
    assert(coeff_vals_and(cs, 1, 1) == Seq::<nat>::empty() + seq![w0]);
    assert(coeff_vals_and(cs, 1, 2) == (Seq::<nat>::empty() + seq![w0]) + seq![w1]);
    let cv = coeff_vals(t, 1);
    assert(cv =~= seq![w0, w1]);
    assert(w0 == 2 && w1 == (m - 1) as nat);

    // the two shares
    let s1 = poly_eval(seq![a0, a1], 1);
    let s2 = poly_eval(seq![a0, a1], 2);
    assert(seq![a0, a1].drop_first() =~= seq![a1]);
    assert(seq![a1].drop_first() =~= Seq::<nat>::empty());
    assert(poly_eval(Seq::<nat>::empty(), 1) == 0);
    assert(poly_eval(Seq::<nat>::empty(), 2) == 0);
    assert(poly_eval(seq![a1], 1) == ((a1 + 1nat * 0) as nat) % m);
    assert(poly_eval(seq![a1], 2) == ((a1 + 2nat * 0) as nat) % m);
    assert(poly_eval(seq![a1], 1) == a1);
    assert(poly_eval(seq![a1], 2) == a1);
    assert(s1 == (a0 + 1nat * a1) % m);
    assert(s2 == (a0 + 2nat * a1) % m);

    // the weighted sum gives the constant term back
    let sv = seq![s1, s2];
    assert(dot_mod(cv, sv, 0) == 0);
    assert(dot_mod(cv, sv, 1) == (0 + (2nat * s1) % m) % m);
    vstd::arithmetic::div_mod::lemma_mod_twice((2nat * s1) as int, m as int);
    assert(dot_mod(cv, sv, 1) == (2nat * s1) % m);
    assert(dot_mod(cv, sv, 2) == ((2nat * s1) % m + (((m - 1) as nat) * s2) % m) % m);
    vstd::arithmetic::div_mod::lemma_mul_mod_noop_right(2, (a0 + 1 * a1) as int, m as int);
    vstd::arithmetic::div_mod::lemma_mul_mod_noop_right((m - 1) as int, (a0 + 2 * a1) as int, m as int);
    assert((2nat * s1) % m == (2 * (a0 + a1)) % m);
    assert((((m - 1) as nat) * s2) % m == ((m - 1) * (a0 + 2 * a1)) % (m as int));
    vstd::arithmetic::div_mod::lemma_add_mod_noop((2 * (a0 + a1)) as int, ((m - 1) * (a0 + 2 * a1)) as int, m as int);
    assert(dot_mod(cv, sv, 2) == (2 * (a0 + a1) + (m - 1) * (a0 + 2 * a1)) % (m as int));
    assert(2 * (a0 + a1) + (m - 1) * (a0 + 2 * a1) == m * (a0 + 2 * a1) + a0) by (nonlinear_arith)
        requires
            m >= 1,
    ;
    vstd::arithmetic::div_mod::lemma_mod_multiples_vanish((a0 + 2 * a1) as int, a0 as int, m as int);
    assert(dot_mod(cv, sv, 2) == a0 % m);
}

/// Recover the root secret from leaf shares, pairing each share in order with
/// the parsed policy's leaf coefficients: the weighted sum of the shares
/// under the leaves' recovery coefficients.
#[verifier::loop_isolation(false)]
pub fn recover_secret(shares: Vec<Scalar>, policy: &String) -> (r: Option<Scalar>)
    requires
        all_wf(shares@),
    ensures
        r is Some <==> spec_parse_policy(policy@) is Some
            && shares@.len() <= leaf_names_v(spec_parse_policy(policy@)->0).len(),
        r is Some ==> r->0.wf(),
        r is Some ==> exists|t: PolicyNode| #![auto] view_policy(t) == spec_parse_policy(policy@)->0
            && r->0.val() == dot_mod(coeff_vals(t, 1), scalars_view(shares@), shares@.len() as int),
{
    match parse_policy(policy.as_str()) {
        None => None,
        Some(t) => {
            let one = fr_one();
            match calc_coefficients(&t, &one) {
                None => None,
                Some(co) => {
                    proof {
                        lemma_view_leaf_names(t);
                        assert(co@.len() == leaf_names_v(spec_parse_policy(policy@)->0).len());
                    }
                    if shares.len() > co.len() {
                        return None;
                    }
                    let ghost cv = pairs_vals(co@);
                    proof {
                        assert(cv == coeff_vals(t, 1));
                        assert(cv.len() == co@.len());
                    }
                    let mut acc = fr_zero();
                    let mut i: usize = 0;
                    while i < shares.len()
                        invariant
                            i <= shares@.len(),
                            shares@.len() <= co@.len(),
                            acc.wf(),
                            pairs_wf(co@),
                            acc.val() == dot_mod(cv, scalars_view(shares@), i as int),
                        decreases shares@.len() - i,
                    {
                        proof {
                            assert(cv[i as int] == co@[i as int].1.val());
                            assert(scalars_view(shares@)[i as int] == shares@[i as int].val());
                        }
                        let p = fr_mul(&co[i].1, &shares[i]);
                        acc = fr_add(&acc, &p);
                        i += 1;
                    }
                    proof {
                        assert(view_policy(t) == spec_parse_policy(policy@)->0
                            && acc.val() == dot_mod(coeff_vals(t, 1), scalars_view(shares@), shares@.len() as int));
                    }
                    Some(acc)
                },
            }
        },
    }
}

} // verus!
