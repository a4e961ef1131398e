//! The order in which strings and edges are sorted: strings character by
//! character by code point, the shorter first where one is a prefix of the
//! other; edges by source, then target, then edge type.

use vstd::prelude::*;
use crate::model::{EdgeType, EdgeView, ReferenceEdge};
use crate::text::chars_of;

verus! {


/// `a` comes strictly before `b`.
pub open spec fn str_lt(a: Seq<char>, b: Seq<char>) -> bool
    decreases a.len(),
{
    if b.len() == 0 {
        false
    } else if a.len() == 0 {
        true
    } else if a[0] != b[0] {
        a[0] < b[0]
    } else {
        str_lt(a.skip(1), b.skip(1))
    }
}

pub proof fn lemma_str_lt_irreflexive(a: Seq<char>)
    ensures
        !str_lt(a, a),
    decreases a.len(),
{
    if a.len() > 0 {
        lemma_str_lt_irreflexive(a.skip(1));
    }
}

pub proof fn lemma_str_lt_transitive(a: Seq<char>, b: Seq<char>, c: Seq<char>)
    requires
        str_lt(a, b),
        str_lt(b, c),
    ensures
        str_lt(a, c),
    decreases a.len(),
{
    if a.len() > 0 && b.len() > 0 && c.len() > 0 {
        if a[0] == b[0] && b[0] == c[0] {
            lemma_str_lt_transitive(a.skip(1), b.skip(1), c.skip(1));
        }
    }
}

pub proof fn lemma_str_lt_total(a: Seq<char>, b: Seq<char>)
    ensures
        a == b || str_lt(a, b) || str_lt(b, a),
    decreases a.len(),
{
    if a.len() > 0 && b.len() > 0 {
        if a[0] == b[0] {
            lemma_str_lt_total(a.skip(1), b.skip(1));
            if a.skip(1) == b.skip(1) {
                assert(a =~= seq![a[0]] + a.skip(1));
                assert(b =~= seq![b[0]] + b.skip(1));
            }
        }
    } else if a.len() == 0 && b.len() == 0 {
        assert(a =~= b);
    }
}

pub proof fn lemma_str_lt_asymmetric(a: Seq<char>, b: Seq<char>)
    requires
        str_lt(a, b),
    ensures
        !str_lt(b, a),
        a != b,
{
    lemma_str_lt_irreflexive(a);
    if str_lt(b, a) {
        lemma_str_lt_transitive(a, b, a);
    }
}

/// Whether `a` sorts strictly before `b`.
pub fn chars_lt(a: &Vec<char>, b: &Vec<char>) -> (r: bool)
    ensures
        r == str_lt(a@, b@),
{
    let mut i: usize = 0;
    assert(a@.skip(0) == a@ && b@.skip(0) == b@);
    while i < a.len() && i < b.len()
        invariant
            i <= a.len(),
            i <= b.len(),
            str_lt(a@, b@) == str_lt(a@.skip(i as int), b@.skip(i as int)),
        decreases a.len() - i,
    {
        if a[i] != b[i] {
            return a[i] < b[i];
        }
        proof {
            assert(a@.skip(i as int).skip(1) == a@.skip(i + 1));
            assert(b@.skip(i as int).skip(1) == b@.skip(i + 1));
        }
        i += 1;
    }
    i < b.len()
}

/// Whether string `a` sorts strictly before string `b`.
pub fn string_lt(a: &str, b: &str) -> (r: bool)
    ensures
        r == str_lt(a@, b@),
{
    let x = chars_of(a);
    let y = chars_of(b);
    chars_lt(&x, &y)
}

/// Whether the two strings hold the same text.
pub fn string_eq(a: &str, b: &str) -> (r: bool)
    ensures
        r == (a@ == b@),
{
    let x = chars_of(a);
    let y = chars_of(b);
    crate::text::chars_eq(&x, &y)
}

/// The place of an edge type in the order of edge types.
pub open spec fn edge_rank(t: EdgeType) -> int {
    match t {
        EdgeType::Calls => 0,
        EdgeType::References => 1,
        EdgeType::Imports => 2,
    }
}

pub fn edge_type_rank(t: EdgeType) -> (r: u8)
    ensures
        r == edge_rank(t),
{
    match t {
        EdgeType::Calls => 0,
        EdgeType::References => 1,
        EdgeType::Imports => 2,
    }
}

/// Edge `x` comes strictly before edge `y`: by source, then by target, then
/// by edge type.
pub open spec fn edge_lt(x: EdgeView, y: EdgeView) -> bool {
    if x.from != y.from {
        str_lt(x.from, y.from)
    } else if x.to != y.to {
        str_lt(x.to, y.to)
    } else {
        edge_rank(x.edge_type) < edge_rank(y.edge_type)
    }
}

pub proof fn lemma_edge_lt_transitive(a: EdgeView, b: EdgeView, c: EdgeView)
    requires
        edge_lt(a, b),
        edge_lt(b, c),
    ensures
        edge_lt(a, c),
{
    if a.from != b.from && b.from != c.from {
        lemma_str_lt_transitive(a.from, b.from, c.from);
        lemma_str_lt_asymmetric(a.from, c.from);
    } else if a.from == b.from && b.from == c.from {
        if a.to != b.to && b.to != c.to {
            lemma_str_lt_transitive(a.to, b.to, c.to);
            lemma_str_lt_asymmetric(a.to, c.to);
        }
    }
}

pub proof fn lemma_edge_lt_total(a: EdgeView, b: EdgeView)
    ensures
        a == b || edge_lt(a, b) || edge_lt(b, a),
        !(edge_lt(a, b) && edge_lt(b, a)),
        !edge_lt(a, a),
{
    lemma_str_lt_total(a.from, b.from);
    lemma_str_lt_total(a.to, b.to);
    if str_lt(a.from, b.from) {
        lemma_str_lt_asymmetric(a.from, b.from);
    }
    if str_lt(b.from, a.from) {
        lemma_str_lt_asymmetric(b.from, a.from);
    }
    if str_lt(a.to, b.to) {
        lemma_str_lt_asymmetric(a.to, b.to);
    }
    if str_lt(b.to, a.to) {
        lemma_str_lt_asymmetric(b.to, a.to);
    }
}

/// Whether edge `x` sorts strictly before edge `y`.
pub fn edge_before(x: &ReferenceEdge, y: &ReferenceEdge) -> (r: bool)
    ensures
        r == edge_lt(x@, y@),
{
    if !string_eq(x.from.as_str(), y.from.as_str()) {
        string_lt(x.from.as_str(), y.from.as_str())
    } else if !string_eq(x.to.as_str(), y.to.as_str()) {
        string_lt(x.to.as_str(), y.to.as_str())
    } else {
        edge_type_rank(x.edge_type) < edge_type_rank(y.edge_type)
    }
}

/// Whether the two edges are the same triple.
pub fn edge_same(x: &ReferenceEdge, y: &ReferenceEdge) -> (r: bool)
    ensures
        r == (x@ == y@),
{
    string_eq(x.from.as_str(), y.from.as_str()) && string_eq(x.to.as_str(), y.to.as_str())
        && edge_type_rank(x.edge_type) == edge_type_rank(y.edge_type)
}

/// Each element comes strictly before the next.
pub open spec fn edges_sorted(s: Seq<EdgeView>) -> bool {
    forall|i: int, j: int| 0 <= i < j < s.len() ==> edge_lt(#[trigger] s[i], #[trigger] s[j])
}

/// The number of elements of the sorted `s` that come strictly before `e`.
pub open spec fn edges_below(s: Seq<EdgeView>, e: EdgeView) -> int
    decreases s.len(),
{
    if s.len() > 0 && edge_lt(s[0], e) {
        1 + edges_below(s.skip(1), e)
    } else {
        0
    }
}

/// The sorted, duplicate-free `s` with `e` added.
pub open spec fn insert_edge(s: Seq<EdgeView>, e: EdgeView) -> Seq<EdgeView> {
    let p = edges_below(s, e);
    if p < s.len() && s[p] == e {
        s
    } else {
        s.insert(p, e)
    }
}

pub proof fn lemma_edges_below(s: Seq<EdgeView>, e: EdgeView)
    ensures
        0 <= edges_below(s, e) <= s.len(),
        forall|j: int| 0 <= j < edges_below(s, e) ==> edge_lt(#[trigger] s[j], e),
        edges_below(s, e) < s.len() ==> !edge_lt(s[edges_below(s, e)], e),
    decreases s.len(),
{
    if s.len() > 0 && edge_lt(s[0], e) {
        lemma_edges_below(s.skip(1), e);
        assert forall|j: int| 0 <= j < edges_below(s, e) implies edge_lt(#[trigger] s[j], e) by {
            if j > 0 {
                assert(s[j] == s.skip(1)[j - 1]);
            }
        }
    }
}

pub proof fn lemma_edges_below_at(s: Seq<EdgeView>, e: EdgeView, k: int)
    requires
        0 <= k <= s.len(),
        forall|j: int| 0 <= j < k ==> edge_lt(#[trigger] s[j], e),
        k < s.len() ==> !edge_lt(s[k], e),
    ensures
        edges_below(s, e) == k,
    decreases k,
{
    if k > 0 {
        let t = s.skip(1);
        assert forall|j: int| 0 <= j < k - 1 implies edge_lt(#[trigger] t[j], e) by {
            assert(t[j] == s[j + 1]);
        }
        lemma_edges_below_at(t, e, k - 1);
    }
}

/// Adding an edge keeps the sequence sorted and adds that edge alone.
pub proof fn lemma_insert_edge(s: Seq<EdgeView>, e: EdgeView)
    requires
        edges_sorted(s),
    ensures
        edges_sorted(insert_edge(s, e)),
        forall|x: EdgeView| insert_edge(s, e).contains(x) <==> (s.contains(x) || x == e),
{
    let p = edges_below(s, e);
    lemma_edges_below(s, e);
    let r = insert_edge(s, e);
    if p < s.len() && s[p] == e {
        assert(s.contains(e));
    } else {
        assert forall|i: int, j: int| 0 <= i < j < r.len() implies edge_lt(
            #[trigger] r[i],
            #[trigger] r[j],
        ) by {
            if j == p {
            } else if i == p {
                // r[j] is s[j - 1], at or after s[p]
                lemma_edge_lt_total(s[p], e);
                if j - 1 > p {
                    lemma_edge_lt_transitive(e, s[p], s[j - 1]);
                }
            } else {
            }
        }
        assert forall|x: EdgeView| r.contains(x) <==> (s.contains(x) || x == e) by {
            if r.contains(x) {
                let i = choose|i: int| 0 <= i < r.len() && r[i] == x;
                if i < p {
                    assert(s[i] == x);
                } else if i > p {
                    assert(s[i - 1] == x);
                }
            }
            if s.contains(x) {
                let i = choose|i: int| 0 <= i < s.len() && s[i] == x;
                if i < p {
                    assert(r[i] == x);
                } else {
                    assert(r[i + 1] == x);
                }
            }
            if x == e {
                assert(r[p] == x);
            }
        }
    }
}

/// Adds `e` to the sorted, duplicate-free `edges`.
pub fn add_edge(edges: &mut Vec<ReferenceEdge>, e: ReferenceEdge)
    ensures
        crate::model::edge_views(final(edges)@) == insert_edge(
            crate::model::edge_views(old(edges)@),
            e@,
        ),
{
    let ghost s = crate::model::edge_views(edges@);
    let mut p: usize = 0;
    while p < edges.len() && edge_before(&edges[p], &e)
        invariant
            p <= edges.len(),
            edges@ == old(edges)@,
            s == crate::model::edge_views(edges@),
            forall|j: int| 0 <= j < p ==> edge_lt(#[trigger] s[j], e@),
        decreases edges.len() - p,
    {
        p += 1;
    }
    proof {
        lemma_edges_below_at(s, e@, p as int);
    }
    if p < edges.len() && edge_same(&edges[p], &e) {
    } else {
        edges.insert(p, e);
        assert(crate::model::edge_views(edges@) =~= s.insert(p as int, e@));
    }
}


/// Each element is followed by none that comes strictly before it.
pub open spec fn edges_ordered(s: Seq<EdgeView>) -> bool {
    forall|i: int, j: int| 0 <= i < j < s.len() ==> !edge_lt(#[trigger] s[j], #[trigger] s[i])
}

/// The ordered `s` with `e` put in its place; an edge may stand twice.
pub open spec fn place_edge(s: Seq<EdgeView>, e: EdgeView) -> Seq<EdgeView> {
    s.insert(edges_below(s, e), e)
}

/// The first `n` of `s`, sorted.
pub open spec fn sorted_edges(s: Seq<EdgeView>, n: nat) -> Seq<EdgeView>
    decreases n,
{
    if n == 0 {
        Seq::empty()
    } else {
        place_edge(sorted_edges(s, (n - 1) as nat), s[n - 1])
    }
}

pub proof fn lemma_place_edge(s: Seq<EdgeView>, e: EdgeView)
    requires
        edges_ordered(s),
    ensures
        edges_ordered(place_edge(s, e)),
        place_edge(s, e).len() == s.len() + 1,
{
    let p = edges_below(s, e);
    lemma_edges_below(s, e);
    let r = place_edge(s, e);
    assert forall|i: int, j: int| 0 <= i < j < r.len() implies !edge_lt(
        #[trigger] r[j],
        #[trigger] r[i],
    ) by {
        if j == p {
            lemma_edge_lt_total(s[i], e);
        } else if i == p {
            let y = s[j - 1];
            if edge_lt(y, e) {
                if j - 1 > p {
                    lemma_edge_lt_total(s[p], y);
                    lemma_edge_lt_total(s[p], e);
                    if s[p] != y {
                        lemma_edge_lt_transitive(s[p], y, e);
                    }
                }
            }
        } else {
            let ii = if i < p { i } else { i - 1 };
            let jj = if j < p { j } else { j - 1 };
            assert(r[i] == s[ii] && r[j] == s[jj]);
        }
    }
}

pub proof fn lemma_sorted_edges(s: Seq<EdgeView>, n: nat)
    requires
        n <= s.len(),
    ensures
        edges_ordered(sorted_edges(s, n)),
        sorted_edges(s, n).len() == n,
    decreases n,
{
    if n > 0 {
        lemma_sorted_edges(s, (n - 1) as nat);
        lemma_place_edge(sorted_edges(s, (n - 1) as nat), s[n - 1]);
    }
}

/// The edges of `v`, sorted by source, then target, then type.
pub fn sort_edges(v: Vec<ReferenceEdge>) -> (r: Vec<ReferenceEdge>)
    ensures
        crate::model::edge_views(r@) == sorted_edges(crate::model::edge_views(v@), v@.len()),
        edges_ordered(crate::model::edge_views(r@)),
        r@.len() == v@.len(),
{
    let mut out: Vec<ReferenceEdge> = Vec::new();
    let mut i: usize = 0;
    assert(crate::model::edge_views(out@) =~= Seq::<EdgeView>::empty());
    while i < v.len()
        invariant
            i <= v.len(),
            crate::model::edge_views(out@) == sorted_edges(crate::model::edge_views(v@), i as nat),
        decreases v.len() - i,
    {
        let e = v[i].copy();
        let ghost s = crate::model::edge_views(out@);
        let mut p: usize = 0;
        while p < out.len() && edge_before(&out[p], &e)
            invariant
                p <= out.len(),
                s == crate::model::edge_views(out@),
                forall|j: int| 0 <= j < p ==> edge_lt(#[trigger] s[j], e@),
            decreases out.len() - p,
        {
            p += 1;
        }
        proof {
            lemma_edges_below_at(s, e@, p as int);
        }
        out.insert(p, e);
        assert(crate::model::edge_views(out@) =~= s.insert(p as int, e@));
        i += 1;
    }
    proof {
        lemma_sorted_edges(crate::model::edge_views(v@), v@.len());
    }
    out
}

} // verus!
