//! Access-policy trees: a boolean formula over attribute names, with
//! satisfaction and pruning (minimal witness selection) over attribute sets.

use vstd::prelude::*;

verus! {

broadcast use vstd::seq::group_seq_axioms, vstd::std_specs::vec::group_vec_axioms;

/// One node of an access policy: an attribute leaf, or a gate that requires
/// all (`And`) or any (`Or`) of at least two children.
pub enum PolicyNode {
    Leaf(String),
    And(Vec<PolicyNode>),
    Or(Vec<PolicyNode>),
}

/// The character sequences of a sequence of strings.
pub open spec fn strs_view(v: Seq<String>) -> Seq<Seq<char>> {
    v.map_values(|s: String| s@)
}

/// Structural well-formedness: every gate has at least two children and every
/// leaf carries a non-empty name.
pub open spec fn wf_policy(t: PolicyNode) -> bool
    decreases t, 0int,
{
    match t {
        PolicyNode::Leaf(s) => s@.len() > 0,
        PolicyNode::And(cs) => 2 <= cs@.len() < usize::MAX && wf_upto(cs@, cs@.len() as int),
        PolicyNode::Or(cs) => 2 <= cs@.len() < usize::MAX && wf_upto(cs@, cs@.len() as int),
    }
}

/// Well-formedness of the first `i` nodes of a child list.
pub open spec fn wf_upto(ts: Seq<PolicyNode>, i: int) -> bool
    decreases ts, i,
{
    if i <= 0 {
        true
    } else if i > ts.len() {
        false
    } else {
        wf_upto(ts, i - 1) && wf_policy(ts[i - 1])
    }
}

/// Boolean satisfaction of a policy by a set of attribute names.
pub open spec fn satisfies(attrs: Seq<Seq<char>>, t: PolicyNode) -> bool
    decreases t, 0int,
{
    match t {
        PolicyNode::Leaf(s) => attrs.contains(s@),
        PolicyNode::And(cs) => sat_all_upto(attrs, cs@, cs@.len() as int),
        PolicyNode::Or(cs) => sat_any_upto(attrs, cs@, cs@.len() as int),
    }
}

/// Whether the attribute set satisfies all of the first `i` children.
pub open spec fn sat_all_upto(attrs: Seq<Seq<char>>, ts: Seq<PolicyNode>, i: int) -> bool
    decreases ts, i,
{
    if i <= 0 || i > ts.len() {
        true
    } else {
        sat_all_upto(attrs, ts, i - 1) && satisfies(attrs, ts[i - 1])
    }
}

/// Whether the attribute set satisfies any of the first `i` children.
pub open spec fn sat_any_upto(attrs: Seq<Seq<char>>, ts: Seq<PolicyNode>, i: int) -> bool
    decreases ts, i,
{
    if i <= 0 || i > ts.len() {
        false
    } else {
        sat_any_upto(attrs, ts, i - 1) || satisfies(attrs, ts[i - 1])
    }
}

/// Deterministic pruning: whether the policy is satisfied, and the minimal
/// witness leaf set, chosen in tree order with the first satisfied child of
/// every `Or` gate.
pub open spec fn prune_spec(attrs: Seq<Seq<char>>, t: PolicyNode) -> (bool, Seq<Seq<char>>)
    decreases t, 0int,
{
    match t {
        PolicyNode::Leaf(s) => if attrs.contains(s@) {
            (true, seq![s@])
        } else {
            (false, Seq::empty())
        },
        PolicyNode::And(cs) => {
            let r = prune_and_upto(attrs, cs@, cs@.len() as int);
            if r.0 {
                r
            } else {
                (false, Seq::empty())
            }
        },
        PolicyNode::Or(cs) => prune_or_upto(attrs, cs@, cs@.len() as int),
    }
}

/// Pruning of the first `i` children of an `And` gate: satisfied when all are,
/// selecting the concatenation of the children's selections.
pub open spec fn prune_and_upto(attrs: Seq<Seq<char>>, ts: Seq<PolicyNode>, i: int) -> (bool, Seq<Seq<char>>)
    decreases ts, i,
{
    if i <= 0 || i > ts.len() {
        (true, Seq::empty())
    } else {
        let rest = prune_and_upto(attrs, ts, i - 1);
        let c = prune_spec(attrs, ts[i - 1]);
        (rest.0 && c.0, rest.1 + c.1)
    }
}

/// Pruning of the first `i` children of an `Or` gate: the first satisfied
/// child's selection, in tree order.
pub open spec fn prune_or_upto(attrs: Seq<Seq<char>>, ts: Seq<PolicyNode>, i: int) -> (bool, Seq<Seq<char>>)
    decreases ts, i,
{
    if i <= 0 || i > ts.len() {
        (false, Seq::empty())
    } else {
        let rest = prune_or_upto(attrs, ts, i - 1);
        if rest.0 {
            rest
        } else {
            let c = prune_spec(attrs, ts[i - 1]);
            if c.0 {
                c
            } else {
                (false, Seq::empty())
            }
        }
    }
}

/// The leaf names of a policy, in tree order, with multiplicity.
pub open spec fn leaf_names(t: PolicyNode) -> Seq<Seq<char>>
    decreases t, 0int,
{
    match t {
        PolicyNode::Leaf(s) => seq![s@],
        PolicyNode::And(cs) => leaf_names_upto(cs@, cs@.len() as int),
        PolicyNode::Or(cs) => leaf_names_upto(cs@, cs@.len() as int),
    }
}

/// The leaf names of the first `i` nodes of a child list.
pub open spec fn leaf_names_upto(ts: Seq<PolicyNode>, i: int) -> Seq<Seq<char>>
    decreases ts, i,
{
    if i <= 0 || i > ts.len() {
        Seq::empty()
    } else {
        leaf_names_upto(ts, i - 1) + leaf_names(ts[i - 1])
    }
}


/// The shape of a policy at the specification level: leaf names as character
/// sequences, gates over child sequences.
pub enum PolicySpec {
    Leaf(Seq<char>),
    And(Seq<PolicySpec>),
    Or(Seq<PolicySpec>),
}

/// The specification-level shape of a policy tree.
pub open spec fn view_policy(t: PolicyNode) -> PolicySpec
    decreases t, 0int,
{
    match t {
        PolicyNode::Leaf(s) => PolicySpec::Leaf(s@),
        PolicyNode::And(cs) => PolicySpec::And(views_upto(cs@, cs@.len() as int)),
        PolicyNode::Or(cs) => PolicySpec::Or(views_upto(cs@, cs@.len() as int)),
    }
}

/// The shapes of the first `i` nodes of a child list.
pub open spec fn views_upto(ts: Seq<PolicyNode>, i: int) -> Seq<PolicySpec>
    decreases ts, i,
{
    if i <= 0 || i > ts.len() {
        Seq::empty()
    } else {
        views_upto(ts, i - 1).push(view_policy(ts[i - 1]))
    }
}

/// The shape list of a prefix has that prefix's length and entries.
pub(crate) proof fn lemma_views_props(ts: Seq<PolicyNode>, i: int)
    requires
        0 <= i <= ts.len(),
    ensures
        views_upto(ts, i).len() == i,
        forall|j: int| 0 <= j < i ==> views_upto(ts, i)[j] == view_policy(ts[j]),
    decreases i,
{
    if i > 0 {
        lemma_views_props(ts, i - 1);
    }
}

/// Boolean satisfaction, on the specification-level shape.
pub open spec fn satisfies_v(attrs: Seq<Seq<char>>, t: PolicySpec) -> bool
    decreases t, 0int,
{
    match t {
        PolicySpec::Leaf(s) => attrs.contains(s),
        PolicySpec::And(cs) => sat_all_v(attrs, cs, cs.len() as int),
        PolicySpec::Or(cs) => sat_any_v(attrs, cs, cs.len() as int),
    }
}

/// Whether the attribute set satisfies all of the first `i` shapes.
pub open spec fn sat_all_v(attrs: Seq<Seq<char>>, ts: Seq<PolicySpec>, i: int) -> bool
    decreases ts, i,
{
    if i <= 0 || i > ts.len() {
        true
    } else {
        sat_all_v(attrs, ts, i - 1) && satisfies_v(attrs, ts[i - 1])
    }
}

/// Whether the attribute set satisfies any of the first `i` shapes.
pub open spec fn sat_any_v(attrs: Seq<Seq<char>>, ts: Seq<PolicySpec>, i: int) -> bool
    decreases ts, i,
{
    if i <= 0 || i > ts.len() {
        false
    } else {
        sat_any_v(attrs, ts, i - 1) || satisfies_v(attrs, ts[i - 1])
    }
}

/// Deterministic pruning, on the specification-level shape.
pub open spec fn prune_v(attrs: Seq<Seq<char>>, t: PolicySpec) -> (bool, Seq<Seq<char>>)
    decreases t, 0int,
{
    match t {
        PolicySpec::Leaf(s) => if attrs.contains(s) {
            (true, seq![s])
        } else {
            (false, Seq::empty())
        },
        PolicySpec::And(cs) => {
            let r = prune_and_v(attrs, cs, cs.len() as int);
            if r.0 {
                r
            } else {
                (false, Seq::empty())
            }
        },
        PolicySpec::Or(cs) => prune_or_v(attrs, cs, cs.len() as int),
    }
}

/// Pruning of the first `i` shapes of an `And` gate.
pub open spec fn prune_and_v(attrs: Seq<Seq<char>>, ts: Seq<PolicySpec>, i: int) -> (bool, Seq<Seq<char>>)
    decreases ts, i,
{
    if i <= 0 || i > ts.len() {
        (true, Seq::empty())
    } else {
        let rest = prune_and_v(attrs, ts, i - 1);
        let c = prune_v(attrs, ts[i - 1]);
        (rest.0 && c.0, rest.1 + c.1)
    }
}

/// Pruning of the first `i` shapes of an `Or` gate.
pub open spec fn prune_or_v(attrs: Seq<Seq<char>>, ts: Seq<PolicySpec>, i: int) -> (bool, Seq<Seq<char>>)
    decreases ts, i,
{
    if i <= 0 || i > ts.len() {
        (false, Seq::empty())
    } else {
        let rest = prune_or_v(attrs, ts, i - 1);
        if rest.0 {
            rest
        } else {
            let c = prune_v(attrs, ts[i - 1]);
            if c.0 {
                c
            } else {
                (false, Seq::empty())
            }
        }
    }
}

/// The leaf names of a specification-level shape, in tree order.
pub open spec fn leaf_names_v(t: PolicySpec) -> Seq<Seq<char>>
    decreases t, 0int,
{
    match t {
        PolicySpec::Leaf(s) => seq![s],
        PolicySpec::And(cs) => leaf_names_v_upto(cs, cs.len() as int),
        PolicySpec::Or(cs) => leaf_names_v_upto(cs, cs.len() as int),
    }
}

/// The leaf names of the first `i` shapes of a child list.
pub open spec fn leaf_names_v_upto(ts: Seq<PolicySpec>, i: int) -> Seq<Seq<char>>
    decreases ts, i,
{
    if i <= 0 || i > ts.len() {
        Seq::empty()
    } else {
        leaf_names_v_upto(ts, i - 1) + leaf_names_v(ts[i - 1])
    }
}

/// Satisfaction factors through the specification-level shape.
pub proof fn lemma_view_satisfies(attrs: Seq<Seq<char>>, t: PolicyNode)
    ensures
        satisfies(attrs, t) == satisfies_v(attrs, view_policy(t)),
    decreases t, 0int,
{
    match t {
        PolicyNode::Leaf(_) => {},
        PolicyNode::And(cs) => {
            lemma_views_props(cs@, cs@.len() as int);
            lemma_view_sat_all(attrs, cs@, cs@.len() as int);
        },
        PolicyNode::Or(cs) => {
            lemma_views_props(cs@, cs@.len() as int);
            lemma_view_sat_any(attrs, cs@, cs@.len() as int);
        },
    }
}

proof fn lemma_view_sat_all(attrs: Seq<Seq<char>>, ts: Seq<PolicyNode>, i: int)
    requires
        i <= ts.len(),
    ensures
        sat_all_upto(attrs, ts, i) == sat_all_v(attrs, views_upto(ts, ts.len() as int), i),
    decreases ts, i,
{
    lemma_views_props(ts, ts.len() as int);
    if 0 < i <= ts.len() {
        lemma_view_sat_all(attrs, ts, i - 1);
        lemma_view_satisfies(attrs, ts[i - 1]);
    }
}

proof fn lemma_view_sat_any(attrs: Seq<Seq<char>>, ts: Seq<PolicyNode>, i: int)
    requires
        i <= ts.len(),
    ensures
        sat_any_upto(attrs, ts, i) == sat_any_v(attrs, views_upto(ts, ts.len() as int), i),
    decreases ts, i,
{
    lemma_views_props(ts, ts.len() as int);
    if 0 < i <= ts.len() {
        lemma_view_sat_any(attrs, ts, i - 1);
        lemma_view_satisfies(attrs, ts[i - 1]);
    }
}

/// Pruning factors through the specification-level shape.
pub proof fn lemma_view_prune(attrs: Seq<Seq<char>>, t: PolicyNode)
    ensures
        prune_spec(attrs, t) == prune_v(attrs, view_policy(t)),
    decreases t, 0int,
{
    match t {
        PolicyNode::Leaf(_) => {},
        PolicyNode::And(cs) => {
            lemma_views_props(cs@, cs@.len() as int);
            lemma_view_prune_and(attrs, cs@, cs@.len() as int);
        },
        PolicyNode::Or(cs) => {
            lemma_views_props(cs@, cs@.len() as int);
            lemma_view_prune_or(attrs, cs@, cs@.len() as int);
        },
    }
}

proof fn lemma_view_prune_and(attrs: Seq<Seq<char>>, ts: Seq<PolicyNode>, i: int)
    requires
        i <= ts.len(),
    ensures
        prune_and_upto(attrs, ts, i) == prune_and_v(attrs, views_upto(ts, ts.len() as int), i),
    decreases ts, i,
{
    lemma_views_props(ts, ts.len() as int);
    if 0 < i <= ts.len() {
        lemma_view_prune_and(attrs, ts, i - 1);
        lemma_view_prune(attrs, ts[i - 1]);
    }
}

proof fn lemma_view_prune_or(attrs: Seq<Seq<char>>, ts: Seq<PolicyNode>, i: int)
    requires
        i <= ts.len(),
    ensures
        prune_or_upto(attrs, ts, i) == prune_or_v(attrs, views_upto(ts, ts.len() as int), i),
    decreases ts, i,
{
    lemma_views_props(ts, ts.len() as int);
    if 0 < i <= ts.len() {
        lemma_view_prune_or(attrs, ts, i - 1);
        lemma_view_prune(attrs, ts[i - 1]);
    }
}

/// The leaf names factor through the specification-level shape.
pub proof fn lemma_view_leaf_names(t: PolicyNode)
    ensures
        leaf_names(t) == leaf_names_v(view_policy(t)),
    decreases t, 0int,
{
    match t {
        PolicyNode::Leaf(_) => {},
        PolicyNode::And(cs) => {
            lemma_views_props(cs@, cs@.len() as int);
            lemma_view_leaf_names_upto(cs@, cs@.len() as int);
        },
        PolicyNode::Or(cs) => {
            lemma_views_props(cs@, cs@.len() as int);
            lemma_view_leaf_names_upto(cs@, cs@.len() as int);
        },
    }
}

proof fn lemma_view_leaf_names_upto(ts: Seq<PolicyNode>, i: int)
    requires
        i <= ts.len(),
    ensures
        leaf_names_upto(ts, i) == leaf_names_v_upto(views_upto(ts, ts.len() as int), i),
    decreases ts, i,
{
    lemma_views_props(ts, ts.len() as int);
    if 0 < i <= ts.len() {
        lemma_view_leaf_names_upto(ts, i - 1);
        lemma_view_leaf_names(ts[i - 1]);
    }
}

/// Whether `list` holds a string equal to `item`.
pub fn contains_string(list: &Vec<String>, item: &String) -> (r: bool)
    ensures
        r == strs_view(list@).contains(item@),
{
    let mut k: usize = 0;
    while k < list.len()
        invariant
            k <= list@.len(),
            forall|j: int| 0 <= j < k ==> strs_view(list@)[j] != item@,
        decreases list@.len() - k,
    {
        proof {
            assert(strs_view(list@)[k as int] == list@[k as int]@);
        }
        if item.eq(&list[k]) {
            assert(strs_view(list@).contains(item@)) by {
                assert(strs_view(list@)[k as int] == item@);
            }
            return true;
        }
        k += 1;
    }
    proof {
        assert(strs_view(list@).len() == list@.len());
        if strs_view(list@).contains(item@) {
            let j = choose|j: int| 0 <= j < strs_view(list@).len() && strs_view(list@)[j] == item@;
            assert(strs_view(list@)[j] != item@);
        }
    }
    false
}

/// Every prefix-verified child list member is itself well-formed.
pub(crate) proof fn lemma_wf_upto_index(ts: Seq<PolicyNode>, j: int, i: int)
    requires
        wf_upto(ts, i),
        0 <= j < i,
    ensures
        wf_policy(ts[j]),
    decreases i,
{
    if j < i - 1 {
        lemma_wf_upto_index(ts, j, i - 1);
    }
}

/// Prune a policy against an attribute set: decide satisfaction and select a
/// minimal witness leaf set. Returns `None` exactly on malformed policies.
#[verifier::loop_isolation(false)]
pub fn required_attributes(attr: &Vec<String>, node: &PolicyNode) -> (r: Option<(bool, Vec<String>)>)
    ensures
        r is Some <==> wf_policy(*node),
        r is Some ==> {
            let p = prune_spec(strs_view(attr@), *node);
            &&& r->Some_0.0 == p.0
            &&& strs_view(r->Some_0.1@) == p.1
        },
    decreases *node, 0int,
{
    let ghost attrs = strs_view(attr@);
    match node {
        PolicyNode::Leaf(s) => {
            if s.as_str().is_empty() {
                None
            } else if contains_string(attr, s) {
                let out: Vec<String> = vec![s.clone()];
                assert(strs_view(out@) =~= seq![s@]);
                Some((true, out))
            } else {
                let out: Vec<String> = Vec::new();
                assert(strs_view(out@) =~= Seq::<Seq<char>>::empty());
                Some((false, out))
            }
        },
        PolicyNode::And(cs) => {
            if cs.len() < 2 || cs.len() == usize::MAX {
                return None;
            }
            let mut sat: bool = true;
            let mut out: Vec<String> = Vec::new();
            let mut i: usize = 0;
            assert(strs_view(out@) =~= prune_and_upto(attrs, cs@, 0).1);
            while i < cs.len()
                invariant
                    i <= cs@.len(),
                    strs_view(attr@) == attrs,
                    wf_upto(cs@, i as int),
                    sat == prune_and_upto(attrs, cs@, i as int).0,
                    strs_view(out@) == prune_and_upto(attrs, cs@, i as int).1,
                decreases cs@.len() - i,
            {
                proof {
                    assert((*node) is And);
                    assert((*node)->And_0 == *cs);
                    assert(decreases_to!(*node => (*node)->And_0));
                    assert(decreases_to!(*cs => cs@));
                    assert(decreases_to!(cs@ => cs@[i as int]));
                    assert(decreases_to!(*node => cs@[i as int]));
                }
                let c = required_attributes(attr, &cs[i]);
                match c {
                    None => {
                        proof {
                            if wf_policy(*node) {
                                lemma_wf_upto_index(cs@, i as int, cs@.len() as int);
                            }
                        }
                        return None;
                    },
                    Some((f, mut lst)) => {
                        let ghost old_out = out@;
                        let ghost old_lst = lst@;
                        sat = sat && f;
                        out.append(&mut lst);
                        proof {
                            assert(strs_view(out@) =~= strs_view(old_out) + strs_view(old_lst));
                        }
                    },
                }
                i += 1;
            }
            if sat {
                Some((true, out))
            } else {
                let empty: Vec<String> = Vec::new();
                assert(strs_view(empty@) =~= Seq::<Seq<char>>::empty());
                Some((false, empty))
            }
        },
        PolicyNode::Or(cs) => {
            if cs.len() < 2 || cs.len() == usize::MAX {
                return None;
            }
            let mut found: bool = false;
            let mut out: Vec<String> = Vec::new();
            let mut i: usize = 0;
            assert(strs_view(out@) =~= prune_or_upto(attrs, cs@, 0).1);
            while i < cs.len()
                invariant
                    i <= cs@.len(),
                    strs_view(attr@) == attrs,
                    wf_upto(cs@, i as int),
                    found == prune_or_upto(attrs, cs@, i as int).0,
                    strs_view(out@) == prune_or_upto(attrs, cs@, i as int).1,
                decreases cs@.len() - i,
            {
                proof {
                    assert((*node) is Or);
                    assert((*node)->Or_0 == *cs);
                    assert(decreases_to!(*node => (*node)->Or_0));
                    assert(decreases_to!(*cs => cs@));
                    assert(decreases_to!(cs@ => cs@[i as int]));
                    assert(decreases_to!(*node => cs@[i as int]));
                }
                let c = required_attributes(attr, &cs[i]);
                match c {
                    None => {
                        proof {
                            if wf_policy(*node) {
                                lemma_wf_upto_index(cs@, i as int, cs@.len() as int);
                            }
                        }
                        return None;
                    },
                    Some((f, lst)) => {
                        if !found && f {
                            found = true;
                            out = lst;
                        }
                    },
                }
                i += 1;
            }
            Some((found, out))
        },
    }
}

/// Pruning decides exactly boolean satisfaction.
pub proof fn lemma_prune_satisfies(attrs: Seq<Seq<char>>, t: PolicyNode)
    ensures
        prune_spec(attrs, t).0 == satisfies(attrs, t),
    decreases t, 0int,
{
    match t {
        PolicyNode::Leaf(_) => {},
        PolicyNode::And(cs) => {
            lemma_prune_satisfies_and(attrs, cs@, cs@.len() as int);
        },
        PolicyNode::Or(cs) => {
            lemma_prune_satisfies_or(attrs, cs@, cs@.len() as int);
        },
    }
}

proof fn lemma_prune_satisfies_and(attrs: Seq<Seq<char>>, ts: Seq<PolicyNode>, i: int)
    ensures
        prune_and_upto(attrs, ts, i).0 == sat_all_upto(attrs, ts, i),
    decreases ts, i,
{
    if 0 < i <= ts.len() {
        lemma_prune_satisfies_and(attrs, ts, i - 1);
        lemma_prune_satisfies(attrs, ts[i - 1]);
    }
}

proof fn lemma_prune_satisfies_or(attrs: Seq<Seq<char>>, ts: Seq<PolicyNode>, i: int)
    ensures
        prune_or_upto(attrs, ts, i).0 == sat_any_upto(attrs, ts, i),
    decreases ts, i,
{
    if 0 < i <= ts.len() {
        lemma_prune_satisfies_or(attrs, ts, i - 1);
        lemma_prune_satisfies(attrs, ts[i - 1]);
    }
}

/// Pruning minimality: on a well-formed satisfied policy the selection is
/// non-empty, and every selected name is held by the attribute set.
pub proof fn lemma_prune_minimal(attrs: Seq<Seq<char>>, t: PolicyNode)
    requires
        wf_policy(t),
        prune_spec(attrs, t).0,
    ensures
        prune_spec(attrs, t).1.len() > 0,
        forall|j: int| 0 <= j < prune_spec(attrs, t).1.len() ==> attrs.contains(#[trigger] prune_spec(attrs, t).1[j]),
    decreases t, 0int,
{
    match t {
        PolicyNode::Leaf(s) => {},
        PolicyNode::And(cs) => {
            lemma_prune_minimal_and(attrs, cs@, cs@.len() as int);
        },
        PolicyNode::Or(cs) => {
            lemma_prune_minimal_or(attrs, cs@, cs@.len() as int);
        },
    }
}

proof fn lemma_prune_minimal_and(attrs: Seq<Seq<char>>, ts: Seq<PolicyNode>, i: int)
    requires
        wf_upto(ts, i),
        prune_and_upto(attrs, ts, i).0,
    ensures
        i >= 1 && i <= ts.len() ==> prune_and_upto(attrs, ts, i).1.len() > 0,
        forall|j: int| 0 <= j < prune_and_upto(attrs, ts, i).1.len() ==>
            attrs.contains(#[trigger] prune_and_upto(attrs, ts, i).1[j]),
    decreases ts, i,
{
    if 0 < i <= ts.len() {
        lemma_prune_minimal_and(attrs, ts, i - 1);
        lemma_prune_minimal(attrs, ts[i - 1]);
        let rest = prune_and_upto(attrs, ts, i - 1);
        let c = prune_spec(attrs, ts[i - 1]);
        assert forall|j: int| 0 <= j < prune_and_upto(attrs, ts, i).1.len() implies
            attrs.contains(#[trigger] prune_and_upto(attrs, ts, i).1[j]) by {
            if j < rest.1.len() {
                assert(prune_and_upto(attrs, ts, i).1[j] == rest.1[j]);
            } else {
                assert(prune_and_upto(attrs, ts, i).1[j] == c.1[j - rest.1.len()]);
            }
        }
    }
}

proof fn lemma_prune_minimal_or(attrs: Seq<Seq<char>>, ts: Seq<PolicyNode>, i: int)
    requires
        wf_upto(ts, i),
        prune_or_upto(attrs, ts, i).0,
    ensures
        prune_or_upto(attrs, ts, i).1.len() > 0,
        forall|j: int| 0 <= j < prune_or_upto(attrs, ts, i).1.len() ==>
            attrs.contains(#[trigger] prune_or_upto(attrs, ts, i).1[j]),
    decreases ts, i,
{
    if 0 < i <= ts.len() {
        if prune_or_upto(attrs, ts, i - 1).0 {
            lemma_prune_minimal_or(attrs, ts, i - 1);
        } else if prune_spec(attrs, ts[i - 1]).0 {
            lemma_prune_minimal(attrs, ts[i - 1]);
        }
    }
}

} // verus!
