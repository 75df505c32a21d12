//! Parsing of the textual policy format: a JSON-like document whose nodes are
//! `{"ATT": "<name>"}`, `{"AND": [<node>, ...]}` or `{"OR": [<node>, ...]}`,
//! with gates of at least two children. The grammar is given by a
//! specification-level parser over character sequences; the executable parser
//! returns exactly its result, so every accepted text maps to one
//! well-formed tree and every other text is rejected.

use vstd::prelude::*;

use crate::policy::PolicyNode;
use crate::policy::PolicySpec;
use crate::policy::lemma_views_props;
use crate::policy::view_policy;
use crate::policy::views_upto;
use crate::policy::wf_policy;
use crate::policy::wf_upto;

verus! {

broadcast use vstd::seq::group_seq_axioms, vstd::std_specs::vec::group_vec_axioms;

/// A blank as the grammar skips it.
pub open spec fn is_blank(c: char) -> bool {
    c == ' ' || c == '\t' || c == '\n' || c == '\r'
}

/// The first non-blank position at or after `i`.
pub open spec fn spec_skip_ws(s: Seq<char>, i: int) -> int
    decreases s.len() - i,
{
    if 0 <= i < s.len() && is_blank(s[i]) {
        spec_skip_ws(s, i + 1)
    } else {
        i
    }
}

/// Scan a name body from `k` up to its closing quote, decoding the two
/// escapes for a quote and a backslash and rejecting every other escape:
/// the decoded characters and the position after the closing quote.
pub open spec fn spec_scan_name(s: Seq<char>, k: int) -> Option<(Seq<char>, int)>
    decreases s.len() - k,
{
    if k < 0 || k >= s.len() {
        None
    } else if s[k] == '"' {
        Some((Seq::empty(), k + 1))
    } else if s[k] == '\\' {
        if k + 1 < s.len() && (s[k + 1] == '"' || s[k + 1] == '\\') {
            match spec_scan_name(s, k + 2) {
                None => None,
                Some((d, e)) => Some((seq![s[k + 1]] + d, e)),
            }
        } else {
            None
        }
    } else {
        match spec_scan_name(s, k + 1) {
            None => None,
            Some((d, e)) => Some((seq![s[k]] + d, e)),
        }
    }
}

/// Parse a quoted non-empty attribute name starting at the opening quote.
pub open spec fn spec_parse_name(s: Seq<char>, i: int) -> Option<(Seq<char>, int)> {
    if !(0 <= i < s.len()) || s[i] != '"' {
        None
    } else {
        match spec_scan_name(s, i + 1) {
            None => None,
            Some((d, e)) => if d.len() == 0 {
                None
            } else {
                Some((d, e))
            },
        }
    }
}

/// Parse one policy node starting at `i` (leading blanks allowed). The index
/// guards only rule out positions the walk can never reach.
pub open spec fn spec_parse_node(s: Seq<char>, i: int) -> Option<(PolicySpec, int)>
    decreases s.len() - i, 0int,
{
    let j0 = spec_skip_ws(s, i);
    if i < 0 || j0 < i || j0 >= s.len() || s[j0] != '{' {
        None
    } else {
        let q = spec_skip_ws(s, j0 + 1);
        if q < j0 + 1 || q >= s.len() || s[q] != '"' {
            None
        } else if q + 4 < s.len() && s[q + 1] == 'A' && s[q + 2] == 'T' && s[q + 3] == 'T'
            && s[q + 4] == '"' {
            spec_parse_leaf(s, i, q + 5)
        } else if q + 4 < s.len() && s[q + 1] == 'A' && s[q + 2] == 'N' && s[q + 3] == 'D'
            && s[q + 4] == '"' {
            spec_parse_gate(s, i, q + 5, true)
        } else if q + 3 < s.len() && s[q + 1] == 'O' && s[q + 2] == 'R' && s[q + 3] == '"' {
            spec_parse_gate(s, i, q + 4, false)
        } else {
            None
        }
    }
}

/// The leaf rule after its key: a colon, a name, the closing brace.
pub open spec fn spec_parse_leaf(s: Seq<char>, i: int, after_key: int) -> Option<(PolicySpec, int)> {
    let c0 = spec_skip_ws(s, after_key);
    if c0 < after_key || c0 >= s.len() || s[c0] != ':' {
        None
    } else {
        match spec_parse_name(s, spec_skip_ws(s, c0 + 1)) {
            None => None,
            Some((name, j)) => {
                let j2 = spec_skip_ws(s, j);
                if j2 < j || j2 >= s.len() || s[j2] != '}' {
                    None
                } else {
                    Some((PolicySpec::Leaf(name), j2 + 1))
                }
            },
        }
    }
}

/// A gate rule after its key: a colon, a bracketed list of at least two
/// children, the closing brace.
pub open spec fn spec_parse_gate(s: Seq<char>, i: int, after_key: int, and_gate: bool) -> Option<(PolicySpec, int)>
    decreases s.len() - i, 0int, 0int,
{
    let c0 = spec_skip_ws(s, after_key);
    if i < 0 || after_key <= i || c0 < after_key || c0 >= s.len() || s[c0] != ':' {
        None
    } else {
        let v0 = spec_skip_ws(s, c0 + 1);
        if v0 < c0 + 1 || v0 >= s.len() || s[v0] != '[' {
            None
        } else {
            match spec_parse_children(s, v0 + 1) {
                None => None,
                Some((children, j)) => {
                    if children.len() < 2 || children.len() >= usize::MAX {
                        None
                    } else {
                        let j2 = spec_skip_ws(s, j);
                        if j2 < j || j2 >= s.len() || s[j2] != '}' {
                            None
                        } else if and_gate {
                            Some((PolicySpec::And(children), j2 + 1))
                        } else {
                            Some((PolicySpec::Or(children), j2 + 1))
                        }
                    }
                },
            }
        }
    }
}

/// A comma-separated node list up to and including the closing bracket.
pub open spec fn spec_parse_children(s: Seq<char>, i: int) -> Option<(Seq<PolicySpec>, int)>
    decreases s.len() - i, 1int, 0int,
{
    if i < 0 || i > s.len() {
        None
    } else {
        match spec_parse_node(s, i) {
            None => None,
            Some((first, j)) => {
                if j <= i || j > s.len() {
                    None
                } else {
                    let j1 = spec_skip_ws(s, j);
                    if j1 < j || j1 >= s.len() {
                        None
                    } else if s[j1] == ',' {
                        match spec_parse_children(s, j1 + 1) {
                            None => None,
                            Some((rest, j2)) => Some((seq![first] + rest, j2)),
                        }
                    } else if s[j1] == ']' {
                        Some((seq![first], j1 + 1))
                    } else {
                        None
                    }
                }
            },
        }
    }
}

/// A whole policy document: one node, then blanks to the end.
pub open spec fn spec_parse_policy(s: Seq<char>) -> Option<PolicySpec> {
    match spec_parse_node(s, 0) {
        None => None,
        Some((t, j)) => {
            if spec_skip_ws(s, j) == s.len() {
                Some(t)
            } else {
                None
            }
        },
    }
}

/// Advance past blanks, tabs and line breaks, stopping at `n`.
#[verifier::loop_isolation(false)]
fn skip_ws(s: &str, n: usize, i: usize) -> (j: usize)
    requires
        n as nat == s@.len(),
        i <= n,
    ensures
        i <= j <= n,
        j as int == spec_skip_ws(s@, i as int),
        j < n ==> !is_blank(s@[j as int]),
{
    let mut k: usize = i;
    while k < n
        invariant
            i <= k <= n,
            spec_skip_ws(s@, i as int) == spec_skip_ws(s@, k as int),
        decreases n - k,
    {
        let c = s.get_char(k);
        if c != ' ' && c != '\t' && c != '\n' && c != '\r' {
            return k;
        }
        k += 1;
    }
    k
}

/// Scan a name body from `k` to its closing quote, appending the decoded
/// characters to `acc`.
fn scan_name(s: &str, n: usize, k: usize, acc: String) -> (r: Option<(String, usize)>)
    requires
        n as nat == s@.len(),
        k <= n,
    ensures
        r is None ==> spec_scan_name(s@, k as int) is None,
        r is Some ==> {
            &&& spec_scan_name(s@, k as int) matches Some(d)
                && r->Some_0.0@ == acc@ + d.0 && r->Some_0.1 as int == d.1
            &&& k < r->Some_0.1 <= n
        },
    decreases n - k,
{
    if k >= n {
        return None;
    }
    let c = s.get_char(k);
    if c == '"' {
        proof {
            assert(acc@ + Seq::<char>::empty() =~= acc@);
        }
        Some((acc, k + 1))
    } else if c == '\\' {
        if k + 1 < n {
            let e = s.get_char(k + 1);
            if e == '"' || e == '\\' {
                let mut acc2 = acc;
                acc2.append(s.substring_char(k + 1, k + 2));
                proof {
                    assert(s@.subrange(k + 1 as int, k + 2 as int) =~= seq![s@[k + 1 as int]]);
                }
                let r = scan_name(s, n, k + 2, acc2);
                proof {
                    if r is Some {
                        let d = spec_scan_name(s@, k + 2 as int)->0;
                        assert((acc@ + seq![s@[k + 1 as int]]) + d.0
                            =~= acc@ + (seq![s@[k + 1 as int]] + d.0));
                    }
                }
                r
            } else {
                None
            }
        } else {
            None
        }
    } else {
        let mut acc2 = acc;
        acc2.append(s.substring_char(k, k + 1));
        proof {
            assert(s@.subrange(k as int, k + 1 as int) =~= seq![s@[k as int]]);
        }
        let r = scan_name(s, n, k + 1, acc2);
        proof {
            if r is Some {
                let d = spec_scan_name(s@, k + 1 as int)->0;
                assert((acc@ + seq![s@[k as int]]) + d.0 =~= acc@ + (seq![s@[k as int]] + d.0));
            }
        }
        r
    }
}

/// Parse a quoted attribute name starting at the opening quote `i`: the
/// decoded name (quote and backslash escapes resolved, every other escape
/// rejected), which must be non-empty.
fn parse_name(s: &str, n: usize, i: usize) -> (r: Option<(String, usize)>)
    requires
        n as nat == s@.len(),
        i <= n,
    ensures
        r is None ==> spec_parse_name(s@, i as int) is None,
        r is Some ==> {
            &&& spec_parse_name(s@, i as int) == Some((r->Some_0.0@, r->Some_0.1 as int))
            &&& r->Some_0.0@.len() > 0
            &&& i < r->Some_0.1 <= n
        },
{
    if i >= n || s.get_char(i) != '"' {
        return None;
    }
    match scan_name(s, n, i + 1, String::new()) {
        None => None,
        Some((name, e)) => {
            if name.as_str().is_empty() {
                return None;
            }
            proof {
                let d = spec_scan_name(s@, i + 1 as int)->0;
                assert(Seq::<char>::empty() + d.0 =~= d.0);
            }
            Some((name, e))
        },
    }
}

/// A freshly parsed node in front of a well-formed child list keeps the list
/// well-formed.
proof fn lemma_wf_upto_cons(a: PolicyNode, ts: Seq<PolicyNode>, i: int)
    requires
        wf_policy(a),
        wf_upto(ts, i),
        0 <= i <= ts.len(),
    ensures
        wf_upto(seq![a] + ts, i + 1),
    decreases i,
{
    assert((seq![a] + ts).len() == 1 + ts.len());
    if i > 0 {
        lemma_wf_upto_cons(a, ts, i - 1);
        assert(wf_upto(seq![a] + ts, i));
        assert((seq![a] + ts)[i] == ts[i - 1]);
        assert(wf_policy(ts[i - 1]));
    } else {
        assert((seq![a] + ts)[0] == a);
        assert(wf_upto(seq![a] + ts, 0));
    }
}

/// The shapes of a list with one node in front are the node's shape in front
/// of the list's shapes.
proof fn lemma_views_cons(a: PolicyNode, ts: Seq<PolicyNode>, i: int)
    requires
        0 <= i <= ts.len(),
    ensures
        views_upto(seq![a] + ts, i + 1) == seq![view_policy(a)] + views_upto(ts, i),
    decreases i,
{
    assert((seq![a] + ts).len() == 1 + ts.len());
    if i > 0 {
        lemma_views_cons(a, ts, i - 1);
        assert((seq![a] + ts)[i] == ts[i - 1]);
        assert(views_upto(seq![a] + ts, i + 1)
            =~= (seq![view_policy(a)] + views_upto(ts, i - 1)).push(view_policy(ts[i - 1])));
        assert((seq![view_policy(a)] + views_upto(ts, i - 1)).push(view_policy(ts[i - 1]))
            =~= seq![view_policy(a)] + views_upto(ts, i));
    } else {
        assert((seq![a] + ts)[0] == a);
        assert(views_upto(seq![a] + ts, 1) == views_upto(seq![a] + ts, 0).push(view_policy(a)));
        assert(views_upto(seq![a] + ts, 0).push(view_policy(a))
            =~= seq![view_policy(a)] + views_upto(ts, 0));
    }
}

/// Parse one policy node starting at `i` (leading blanks allowed).
fn parse_node(s: &str, n: usize, i: usize) -> (r: Option<(PolicyNode, usize)>)
    requires
        n as nat == s@.len(),
        i <= n,
    ensures
        r is None ==> spec_parse_node(s@, i as int) is None,
        r is Some ==> {
            &&& spec_parse_node(s@, i as int) == Some((view_policy(r->Some_0.0), r->Some_0.1 as int))
            &&& wf_policy(r->Some_0.0)
            &&& i < r->Some_0.1 <= n
        },
    decreases n - i, 0int,
{
    let j0 = skip_ws(s, n, i);
    if j0 >= n || s.get_char(j0) != '{' {
        return None;
    }
    let q = skip_ws(s, n, j0 + 1);
    // the key: one of "ATT", "AND", "OR"
    if q >= n || s.get_char(q) != '"' {
        return None;
    }
    let mut is_att: bool = false;
    let mut is_and: bool = false;
    let after_key: usize;
    if n - q > 4 && s.get_char(q + 1) == 'A' && s.get_char(q + 2) == 'T' && s.get_char(q + 3) == 'T'
        && s.get_char(q + 4) == '"' {
        is_att = true;
        after_key = q + 5;
    } else if n - q > 4 && s.get_char(q + 1) == 'A' && s.get_char(q + 2) == 'N'
        && s.get_char(q + 3) == 'D' && s.get_char(q + 4) == '"' {
        is_and = true;
        after_key = q + 5;
    } else if n - q > 3 && s.get_char(q + 1) == 'O' && s.get_char(q + 2) == 'R'
        && s.get_char(q + 3) == '"' {
        after_key = q + 4;
    } else {
        return None;
    }
    let c0 = skip_ws(s, n, after_key);
    if c0 >= n || s.get_char(c0) != ':' {
        return None;
    }
    let v0 = skip_ws(s, n, c0 + 1);
    if is_att {
        match parse_name(s, n, v0) {
            None => None,
            Some((name, j)) => {
                let j2 = skip_ws(s, n, j);
                if j2 < n && s.get_char(j2) == '}' {
                    Some((PolicyNode::Leaf(name), j2 + 1))
                } else {
                    None
                }
            },
        }
    } else {
        if v0 >= n || s.get_char(v0) != '[' {
            return None;
        }
        match parse_children(s, n, v0 + 1) {
            None => None,
            Some((children, j)) => {
                proof {
                    lemma_views_props(children@, children@.len() as int);
                }
                if children.len() < 2 || children.len() == usize::MAX {
                    return None;
                }
                let j2 = skip_ws(s, n, j);
                if j2 < n && s.get_char(j2) == '}' {
                    if is_and {
                        Some((PolicyNode::And(children), j2 + 1))
                    } else {
                        Some((PolicyNode::Or(children), j2 + 1))
                    }
                } else {
                    None
                }
            },
        }
    }
}

/// Parse a comma-separated node list up to and including the closing bracket.
fn parse_children(s: &str, n: usize, i: usize) -> (r: Option<(Vec<PolicyNode>, usize)>)
    requires
        n as nat == s@.len(),
        i <= n,
    ensures
        r is None ==> spec_parse_children(s@, i as int) is None,
        r is Some ==> {
            &&& spec_parse_children(s@, i as int)
                == Some((views_upto(r->Some_0.0@, r->Some_0.0@.len() as int), r->Some_0.1 as int))
            &&& r->Some_0.0@.len() >= 1
            &&& wf_upto(r->Some_0.0@, r->Some_0.0@.len() as int)
            &&& i < r->Some_0.1 <= n
        },
    decreases n - i, 1int,
{
    match parse_node(s, n, i) {
        None => None,
        Some((first, j)) => {
            let j1 = skip_ws(s, n, j);
            if j1 < n && s.get_char(j1) == ',' {
                match parse_children(s, n, j1 + 1) {
                    None => None,
                    Some((mut rest, j2)) => {
                        let ghost old_rest = rest@;
                        rest.insert(0, first);
                        proof {
                            assert(rest@ =~= seq![first] + old_rest);
                            lemma_wf_upto_cons(first, old_rest, old_rest.len() as int);
                            lemma_views_cons(first, old_rest, old_rest.len() as int);
                        }
                        Some((rest, j2))
                    },
                }
            } else if j1 < n && s.get_char(j1) == ']' {
                let out: Vec<PolicyNode> = vec![first];
                proof {
                    assert(out@ =~= seq![first] + Seq::<PolicyNode>::empty());
                    lemma_wf_upto_cons(first, Seq::empty(), 0);
                    assert(out@[0] == first);
                    assert(views_upto(out@, 1) == views_upto(out@, 0).push(view_policy(first)));
                    assert(views_upto(out@, 0).push(view_policy(first)) =~= seq![view_policy(first)]);
                }
                Some((out, j1 + 1))
            } else {
                None
            }
        },
    }
}

/// Parse a whole policy document; trailing text other than blanks is
/// rejected. The result is exactly the specification-level parse: a returned
/// tree is well-formed (gates of at least two children, non-empty leaf names)
/// and carries the parsed shape, and a text the grammar refuses gives `None`.
pub fn parse_policy(s: &str) -> (r: Option<PolicyNode>)
    ensures
        r is Some <==> spec_parse_policy(s@) is Some,
        r is Some ==> {
            &&& Some(view_policy(r->Some_0)) == spec_parse_policy(s@)
            &&& wf_policy(r->Some_0)
        },
{
    let n = s.unicode_len();
    match parse_node(s, n, 0) {
        None => None,
        Some((t, j)) => {
            let j2 = skip_ws(s, n, j);
            if j2 == n {
                Some(t)
            } else {
                None
            }
        },
    }
}

} // verus!
