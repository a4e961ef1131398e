//! Laws of the adjacency form: it does not depend on the order in which
//! the edges are given, and it holds each edge as often as it was given.

use vstd::multiset::{lemma_multiset_empty_len, Multiset};
use vstd::prelude::*;
use vstd::seq_lib::{lemma_multiset_commutative, to_multiset_build, to_multiset_insert};
use crate::adjacency::{
    adjacency_of, edges_through, entries_below, entry_edges, flat_edges, group_edges,
    groups_below, lemma_below_stops_entries, lemma_below_stops_groups,
    lemma_below_stops_targets, lemma_entries_below, lemma_groups_below, lemma_targets_below,
    targets_below, with_edge, with_group_target, with_target, EntryView, GroupView,
};
use crate::model::{EdgeType, EdgeView};
use crate::ordering::{
    edge_rank, edges_below, edges_ordered, lemma_edges_below, lemma_sorted_edges,
    lemma_str_lt_asymmetric, lemma_str_lt_irreflexive, lemma_str_lt_total,
    lemma_str_lt_transitive, sorted_edges, str_lt,
};

verus! {

/// Replacing at two places can be done in either order.
proof fn lemma_update_update<A>(s: Seq<A>, p: int, a: A, q: int, b: A)
    requires
        0 <= p < q < s.len(),
    ensures
        s.update(p, a).update(q, b) == s.update(q, b).update(p, a),
{
    assert(s.update(p, a).update(q, b) =~= s.update(q, b).update(p, a));
}

/// Replacing at one place and adding at a later one can be done in either
/// order.
proof fn lemma_update_insert<A>(s: Seq<A>, p: int, a: A, q: int, b: A)
    requires
        0 <= p < q <= s.len(),
    ensures
        s.update(p, a).insert(q, b) == s.insert(q, b).update(p, a),
{
    assert(s.update(p, a).insert(q, b) =~= s.insert(q, b).update(p, a));
}

/// Adding at one place and replacing at a later one can be done in either
/// order.
proof fn lemma_insert_update<A>(s: Seq<A>, p: int, a: A, q: int, b: A)
    requires
        0 <= p <= q < s.len(),
    ensures
        s.insert(p, a).update(q + 1, b) == s.update(q, b).insert(p, a),
{
    assert(s.insert(p, a).update(q + 1, b) =~= s.update(q, b).insert(p, a));
}

/// Adding at two places can be done in either order.
proof fn lemma_insert_insert<A>(s: Seq<A>, p: int, a: A, q: int, b: A)
    requires
        0 <= p <= q <= s.len(),
    ensures
        s.insert(p, a).insert(q + 1, b) == s.insert(q, b).insert(p, a),
{
    assert(s.insert(p, a).insert(q + 1, b) =~= s.insert(q, b).insert(p, a));
}

proof fn lemma_targets_prefix(t: Seq<Seq<char>>, x: Seq<char>, k: nat)
    requires
        k <= t.len(),
        forall|j: int| 0 <= j < k ==> str_lt(#[trigger] t[j], x),
    ensures
        targets_below(t, x, k) == k,
    decreases k,
{
    if k > 0 {
        lemma_targets_prefix(t, x, (k - 1) as nat);
    }
}

/// The place of `x` among the targets is where the first target stands
/// that does not sort before it.
pub proof fn lemma_targets_below_at(t: Seq<Seq<char>>, x: Seq<char>, p: int)
    requires
        0 <= p <= t.len(),
        forall|j: int| 0 <= j < p ==> str_lt(#[trigger] t[j], x),
        p < t.len() ==> !str_lt(t[p], x),
    ensures
        targets_below(t, x, t.len()) == p,
{
    lemma_targets_prefix(t, x, p as nat);
    lemma_below_stops_targets(t, x, p as nat, t.len());
}

proof fn lemma_with_target_ordered(t: Seq<Seq<char>>, x: Seq<char>, y: Seq<char>)
    requires
        str_lt(x, y),
    ensures
        with_target(with_target(t, x), y) == with_target(with_target(t, y), x),
{
    let px = targets_below(t, x, t.len());
    let py = targets_below(t, y, t.len());
    lemma_targets_below(t, x, t.len());
    lemma_targets_below(t, y, t.len());
    lemma_str_lt_asymmetric(x, y);
    if py < px {
        lemma_str_lt_transitive(t[py], x, y);
    }
    let t1 = t.insert(px, x);
    assert forall|j: int| 0 <= j < py + 1 implies str_lt(#[trigger] t1[j], y) by {
        if j < px {
            assert(t1[j] == t[j]);
            lemma_str_lt_transitive(t[j], x, y);
        } else if j > px {
            assert(t1[j] == t[j - 1]);
        }
    }
    if py + 1 < t1.len() {
        assert(t1[py + 1] == t[py]);
    }
    lemma_targets_below_at(t1, y, py + 1);
    let t2 = t.insert(py, y);
    assert forall|j: int| 0 <= j < px implies str_lt(#[trigger] t2[j], x) by {
        assert(t2[j] == t[j]);
    }
    if px < py {
        assert(t2[px] == t[px]);
    } else {
        assert(t2[px] == y);
    }
    lemma_targets_below_at(t2, x, px);
    assert(t1.insert(py + 1, y) =~= t2.insert(px, x));
}

/// Two targets can be added in either order.
pub proof fn lemma_with_target_commutes(t: Seq<Seq<char>>, x: Seq<char>, y: Seq<char>)
    ensures
        with_target(with_target(t, x), y) == with_target(with_target(t, y), x),
{
    if x != y {
        lemma_str_lt_total(x, y);
        if str_lt(x, y) {
            lemma_with_target_ordered(t, x, y);
        } else {
            lemma_with_target_ordered(t, y, x);
        }
    }
}

proof fn lemma_groups_prefix(g: Seq<GroupView>, t: EdgeType, k: nat)
    requires
        k <= g.len(),
        forall|j: int| 0 <= j < k ==> edge_rank((#[trigger] g[j]).edge_type) < edge_rank(t),
    ensures
        groups_below(g, t, k) == k,
    decreases k,
{
    if k > 0 {
        lemma_groups_prefix(g, t, (k - 1) as nat);
    }
}

/// The place of a type among the groups is where the first group stands
/// whose type does not sort before it.
pub proof fn lemma_groups_below_at(g: Seq<GroupView>, t: EdgeType, p: int)
    requires
        0 <= p <= g.len(),
        forall|j: int| 0 <= j < p ==> edge_rank((#[trigger] g[j]).edge_type) < edge_rank(t),
        p < g.len() ==> !(edge_rank(g[p].edge_type) < edge_rank(t)),
    ensures
        groups_below(g, t, g.len()) == p,
{
    lemma_groups_prefix(g, t, p as nat);
    lemma_below_stops_groups(g, t, p as nat, g.len());
}

proof fn lemma_group_target_same(g: Seq<GroupView>, t: EdgeType, x: Seq<char>, y: Seq<char>)
    ensures
        with_group_target(with_group_target(g, t, x), t, y) == with_group_target(
            with_group_target(g, t, y),
            t,
            x,
        ),
{
    let q = groups_below(g, t, g.len());
    lemma_groups_below(g, t, g.len());
    let g1 = with_group_target(g, t, x);
    let g2 = with_group_target(g, t, y);
    assert forall|j: int| 0 <= j < q implies edge_rank((#[trigger] g1[j]).edge_type) < edge_rank(
        t,
    ) by {
        assert(g1[j] == g[j]);
    }
    assert forall|j: int| 0 <= j < q implies edge_rank((#[trigger] g2[j]).edge_type) < edge_rank(
        t,
    ) by {
        assert(g2[j] == g[j]);
    }
    assert(g1[q].edge_type == t);
    assert(g2[q].edge_type == t);
    lemma_groups_below_at(g1, t, q);
    lemma_groups_below_at(g2, t, q);
    if q < g.len() && g[q].edge_type == t {
        lemma_with_target_commutes(g[q].targets, x, y);
        assert(with_group_target(g1, t, y) =~= with_group_target(g2, t, x));
    } else {
        let none = Seq::<Seq<char>>::empty();
        lemma_with_target_commutes(none, x, y);
        lemma_targets_below_at(none, x, 0);
        lemma_targets_below_at(none, y, 0);
        assert(with_target(none, x) =~= seq![x]);
        assert(with_target(none, y) =~= seq![y]);
        assert(with_group_target(g1, t, y) =~= with_group_target(g2, t, x));
    }
}

/// Where the later of two types is placed once the earlier was added.
#[verifier::rlimit(40)]
proof fn lemma_later_type_place(g: Seq<GroupView>, t: EdgeType, x: Seq<char>, u: EdgeType)
    requires
        edge_rank(t) < edge_rank(u),
    ensures
        0 <= groups_below(g, t, g.len()) <= groups_below(g, u, g.len()) <= g.len(),
        groups_below(g, t, g.len()) < g.len() && g[groups_below(g, t, g.len())].edge_type == t
            ==> groups_below(g, t, g.len()) < groups_below(g, u, g.len()) && groups_below(
            with_group_target(g, t, x),
            u,
            with_group_target(g, t, x).len(),
        ) == groups_below(g, u, g.len()),
        !(groups_below(g, t, g.len()) < g.len() && g[groups_below(g, t, g.len())].edge_type == t)
            ==> groups_below(with_group_target(g, t, x), u, with_group_target(g, t, x).len())
            == groups_below(g, u, g.len()) + 1,
{
    let p = groups_below(g, t, g.len());
    let q = groups_below(g, u, g.len());
    lemma_groups_below(g, t, g.len());
    lemma_groups_below(g, u, g.len());
    let hit = p < g.len() && g[p].edge_type == t;
    let g1 = with_group_target(g, t, x);
    let q1 = if hit {
        q
    } else {
        q + 1
    };
    assert forall|j: int| 0 <= j < q1 implies edge_rank((#[trigger] g1[j]).edge_type) < edge_rank(
        u,
    ) by {
        if j < p {
            assert(g1[j] == g[j]);
        } else if j == p {
            assert(g1[j].edge_type == t);
        } else if hit {
            assert(g1[j] == g[j]);
        } else {
            assert(g1[j] == g[j - 1]);
        }
    }
    if q1 < g1.len() {
        assert(g1[q1] == g[q]);
    }
    lemma_groups_below_at(g1, u, q1);
}

/// The earlier of two types is placed where it was, once the later was
/// added.
proof fn lemma_earlier_type_place(g: Seq<GroupView>, t: EdgeType, u: EdgeType, y: Seq<char>)
    requires
        edge_rank(t) < edge_rank(u),
    ensures
        groups_below(with_group_target(g, u, y), t, with_group_target(g, u, y).len())
            == groups_below(g, t, g.len()),
{
    let p = groups_below(g, t, g.len());
    let q = groups_below(g, u, g.len());
    lemma_later_type_place(g, t, y, u);
    lemma_groups_below(g, t, g.len());
    let g2 = with_group_target(g, u, y);
    assert forall|j: int| 0 <= j < p implies edge_rank((#[trigger] g2[j]).edge_type) < edge_rank(
        t,
    ) by {
        assert(g2[j] == g[j]);
    }
    if p < q {
        assert(g2[p] == g[p]);
    } else {
        assert(g2[p].edge_type == u);
    }
    lemma_groups_below_at(g2, t, p);
}

#[verifier::rlimit(40)]
proof fn lemma_group_target_ordered(
    g: Seq<GroupView>,
    t: EdgeType,
    x: Seq<char>,
    u: EdgeType,
    y: Seq<char>,
)
    requires
        edge_rank(t) < edge_rank(u),
    ensures
        with_group_target(with_group_target(g, t, x), u, y) == with_group_target(
            with_group_target(g, u, y),
            t,
            x,
        ),
{
    let p = groups_below(g, t, g.len());
    let q = groups_below(g, u, g.len());
    lemma_later_type_place(g, t, x, u);
    lemma_earlier_type_place(g, t, u, y);
    let g1 = with_group_target(g, t, x);
    let g2 = with_group_target(g, u, y);
    let hit_t = p < g.len() && g[p].edge_type == t;
    let hit_u = q < g.len() && g[q].edge_type == u;
    let new_t = GroupView {
        edge_type: t,
        targets: if hit_t {
            with_target(g[p].targets, x)
        } else {
            seq![x]
        },
    };
    let new_u = GroupView {
        edge_type: u,
        targets: if hit_u {
            with_target(g[q].targets, y)
        } else {
            seq![y]
        },
    };
    if hit_t {
        assert(g1 == g.update(p, new_t));
        if q < g.len() {
            assert(g1[q] == g[q]);
        }
    } else {
        assert(g1 == g.insert(p, new_t));
        if q < g.len() {
            assert(g1[q + 1] == g[q]);
        }
    }
    if hit_u {
        assert(g2 == g.update(q, new_u));
    } else {
        assert(g2 == g.insert(q, new_u));
    }
    if p < q {
        assert(g2[p] == g[p]);
    } else {
        assert(g2[p] == new_u);
    }
    if hit_t && hit_u {
        assert(with_group_target(g1, u, y) == g1.update(q, new_u));
        assert(with_group_target(g2, t, x) == g2.update(p, new_t));
        lemma_update_update(g, p, new_t, q, new_u);
    } else if hit_t {
        assert(with_group_target(g1, u, y) == g1.insert(q, new_u));
        assert(with_group_target(g2, t, x) == g2.update(p, new_t));
        lemma_update_insert(g, p, new_t, q, new_u);
    } else if hit_u {
        assert(with_group_target(g1, u, y) == g1.update(q + 1, new_u));
        assert(with_group_target(g2, t, x) == g2.insert(p, new_t));
        lemma_insert_update(g, p, new_t, q, new_u);
    } else {
        assert(with_group_target(g1, u, y) == g1.insert(q + 1, new_u));
        assert(with_group_target(g2, t, x) == g2.insert(p, new_t));
        lemma_insert_insert(g, p, new_t, q, new_u);
    }
}

/// Two targets can be added to the groups in either order, under the same
/// type or under two.
pub proof fn lemma_group_target_commutes(
    g: Seq<GroupView>,
    t: EdgeType,
    x: Seq<char>,
    u: EdgeType,
    y: Seq<char>,
)
    ensures
        with_group_target(with_group_target(g, t, x), u, y) == with_group_target(
            with_group_target(g, u, y),
            t,
            x,
        ),
{
    if t == u {
        lemma_group_target_same(g, t, x, y);
    } else if edge_rank(t) < edge_rank(u) {
        lemma_group_target_ordered(g, t, x, u, y);
    } else {
        lemma_group_target_ordered(g, u, y, t, x);
    }
}

proof fn lemma_entries_prefix(a: Seq<EntryView>, key: Seq<char>, k: nat)
    requires
        k <= a.len(),
        forall|j: int| 0 <= j < k ==> str_lt((#[trigger] a[j]).source, key),
    ensures
        entries_below(a, key, k) == k,
    decreases k,
{
    if k > 0 {
        lemma_entries_prefix(a, key, (k - 1) as nat);
    }
}

/// The place of a source among the entries is where the first entry
/// stands whose source does not sort before it.
pub proof fn lemma_entries_below_at(a: Seq<EntryView>, key: Seq<char>, p: int)
    requires
        0 <= p <= a.len(),
        forall|j: int| 0 <= j < p ==> str_lt((#[trigger] a[j]).source, key),
        p < a.len() ==> !str_lt(a[p].source, key),
    ensures
        entries_below(a, key, a.len()) == p,
{
    lemma_entries_prefix(a, key, p as nat);
    lemma_below_stops_entries(a, key, p as nat, a.len());
}

proof fn lemma_with_edge_same(a: Seq<EntryView>, e: EdgeView, f: EdgeView)
    requires
        e.from == f.from,
    ensures
        with_edge(with_edge(a, e), f) == with_edge(with_edge(a, f), e),
{
    let s = e.from;
    let p = entries_below(a, s, a.len());
    lemma_entries_below(a, s, a.len());
    lemma_str_lt_irreflexive(s);
    let a1 = with_edge(a, e);
    let a2 = with_edge(a, f);
    assert forall|j: int| 0 <= j < p implies str_lt((#[trigger] a1[j]).source, s) by {
        assert(a1[j] == a[j]);
    }
    assert forall|j: int| 0 <= j < p implies str_lt((#[trigger] a2[j]).source, s) by {
        assert(a2[j] == a[j]);
    }
    assert(a1[p].source == s);
    assert(a2[p].source == s);
    lemma_entries_below_at(a1, s, p);
    lemma_entries_below_at(a2, s, p);
    if p < a.len() && a[p].source == s {
        lemma_group_target_commutes(a[p].groups, e.edge_type, e.to, f.edge_type, f.to);
    } else {
        lemma_group_target_commutes(Seq::empty(), e.edge_type, e.to, f.edge_type, f.to);
    }
    assert(with_edge(a1, f) =~= with_edge(a2, e));
}

/// Where the later of two sources is placed once the earlier was added.
#[verifier::rlimit(40)]
proof fn lemma_later_source_place(a: Seq<EntryView>, e: EdgeView, f: EdgeView)
    requires
        str_lt(e.from, f.from),
    ensures
        0 <= entries_below(a, e.from, a.len()) <= entries_below(a, f.from, a.len()) <= a.len(),
        entries_below(a, e.from, a.len()) < a.len() && a[entries_below(
            a,
            e.from,
            a.len(),
        )].source == e.from ==> entries_below(a, e.from, a.len()) < entries_below(
            a,
            f.from,
            a.len(),
        ) && entries_below(with_edge(a, e), f.from, with_edge(a, e).len()) == entries_below(
            a,
            f.from,
            a.len(),
        ),
        !(entries_below(a, e.from, a.len()) < a.len() && a[entries_below(
            a,
            e.from,
            a.len(),
        )].source == e.from) ==> entries_below(with_edge(a, e), f.from, with_edge(a, e).len())
            == entries_below(a, f.from, a.len()) + 1,
{
    let p = entries_below(a, e.from, a.len());
    let q = entries_below(a, f.from, a.len());
    lemma_entries_below(a, e.from, a.len());
    lemma_entries_below(a, f.from, a.len());
    if q < p {
        lemma_str_lt_transitive(a[q].source, e.from, f.from);
    }
    let hit = p < a.len() && a[p].source == e.from;
    let a1 = with_edge(a, e);
    let q1 = if hit {
        q
    } else {
        q + 1
    };
    assert forall|j: int| 0 <= j < q1 implies str_lt((#[trigger] a1[j]).source, f.from) by {
        if j < p {
            assert(a1[j] == a[j]);
            lemma_str_lt_transitive(a[j].source, e.from, f.from);
        } else if j == p {
            assert(a1[j].source == e.from);
        } else if hit {
            assert(a1[j] == a[j]);
        } else {
            assert(a1[j] == a[j - 1]);
        }
    }
    if q1 < a1.len() {
        assert(a1[q1] == a[q]);
    }
    lemma_entries_below_at(a1, f.from, q1);
}

/// The earlier of two sources is placed where it was, once the later was
/// added.
proof fn lemma_earlier_source_place(a: Seq<EntryView>, e: EdgeView, f: EdgeView)
    requires
        str_lt(e.from, f.from),
    ensures
        entries_below(with_edge(a, f), e.from, with_edge(a, f).len()) == entries_below(
            a,
            e.from,
            a.len(),
        ),
{
    let p = entries_below(a, e.from, a.len());
    let q = entries_below(a, f.from, a.len());
    lemma_later_source_place(a, e, f);
    lemma_entries_below(a, e.from, a.len());
    lemma_str_lt_asymmetric(e.from, f.from);
    let a2 = with_edge(a, f);
    assert forall|j: int| 0 <= j < p implies str_lt((#[trigger] a2[j]).source, e.from) by {
        assert(a2[j] == a[j]);
    }
    if p < q {
        assert(a2[p] == a[p]);
    } else {
        assert(a2[p].source == f.from);
    }
    lemma_entries_below_at(a2, e.from, p);
}

#[verifier::rlimit(40)]
proof fn lemma_with_edge_ordered(a: Seq<EntryView>, e: EdgeView, f: EdgeView)
    requires
        str_lt(e.from, f.from),
    ensures
        with_edge(with_edge(a, e), f) == with_edge(with_edge(a, f), e),
{
    let p = entries_below(a, e.from, a.len());
    let q = entries_below(a, f.from, a.len());
    lemma_later_source_place(a, e, f);
    lemma_earlier_source_place(a, e, f);
    lemma_str_lt_asymmetric(e.from, f.from);
    let none = Seq::<GroupView>::empty();
    let a1 = with_edge(a, e);
    let a2 = with_edge(a, f);
    let hit_e = p < a.len() && a[p].source == e.from;
    let hit_f = q < a.len() && a[q].source == f.from;
    let new_e = EntryView {
        source: e.from,
        groups: with_group_target(
            if hit_e {
                a[p].groups
            } else {
                none
            },
            e.edge_type,
            e.to,
        ),
    };
    let new_f = EntryView {
        source: f.from,
        groups: with_group_target(
            if hit_f {
                a[q].groups
            } else {
                none
            },
            f.edge_type,
            f.to,
        ),
    };
    if hit_e {
        assert(a1 == a.update(p, new_e));
        if q < a.len() {
            assert(a1[q] == a[q]);
        }
    } else {
        assert(a1 == a.insert(p, new_e));
        if q < a.len() {
            assert(a1[q + 1] == a[q]);
        }
    }
    if hit_f {
        assert(a2 == a.update(q, new_f));
    } else {
        assert(a2 == a.insert(q, new_f));
    }
    if p < q {
        assert(a2[p] == a[p]);
    } else {
        assert(a2[p] == new_f);
    }
    if hit_e && hit_f {
        assert(with_edge(a1, f) == a1.update(q, new_f));
        assert(with_edge(a2, e) == a2.update(p, new_e));
        lemma_update_update(a, p, new_e, q, new_f);
    } else if hit_e {
        assert(with_edge(a1, f) == a1.insert(q, new_f));
        assert(with_edge(a2, e) == a2.update(p, new_e));
        lemma_update_insert(a, p, new_e, q, new_f);
    } else if hit_f {
        assert(with_edge(a1, f) == a1.update(q + 1, new_f));
        assert(with_edge(a2, e) == a2.insert(p, new_e));
        lemma_insert_update(a, p, new_e, q, new_f);
    } else {
        assert(with_edge(a1, f) == a1.insert(q + 1, new_f));
        assert(with_edge(a2, e) == a2.insert(p, new_e));
        lemma_insert_insert(a, p, new_e, q, new_f);
    }
}

/// Two edges can be added to an adjacency in either order.
pub proof fn lemma_with_edge_commutes(a: Seq<EntryView>, e: EdgeView, f: EdgeView)
    ensures
        with_edge(with_edge(a, e), f) == with_edge(with_edge(a, f), e),
{
    if e.from == f.from {
        lemma_with_edge_same(a, e, f);
    } else {
        lemma_str_lt_total(e.from, f.from);
        if str_lt(e.from, f.from) {
            lemma_with_edge_ordered(a, e, f);
        } else {
            lemma_with_edge_ordered(a, f, e);
        }
    }
}

/// The adjacency of the first `n` edges depends on those edges alone.
pub proof fn lemma_adjacency_prefix(e: Seq<EdgeView>, f: Seq<EdgeView>, n: nat)
    requires
        n <= e.len(),
        n <= f.len(),
        forall|i: int| 0 <= i < n ==> e[i] == f[i],
    ensures
        adjacency_of(e, n) == adjacency_of(f, n),
    decreases n,
{
    if n > 0 {
        lemma_adjacency_prefix(e, f, (n - 1) as nat);
    }
}

/// The adjacency of some edges is that of the others with any one of them
/// added last.
pub proof fn lemma_adjacency_moved(e: Seq<EdgeView>, k: int)
    requires
        0 <= k < e.len(),
    ensures
        adjacency_of(e, e.len()) == with_edge(
            adjacency_of(e.remove(k), (e.len() - 1) as nat),
            e[k],
        ),
    decreases e.len(),
{
    let n = e.len();
    let r = e.remove(k);
    if k == n - 1 {
        lemma_adjacency_prefix(e, r, (n - 1) as nat);
    } else {
        let d = e.drop_last();
        lemma_adjacency_moved(d, k);
        lemma_adjacency_prefix(e, d, (n - 1) as nat);
        let rest = adjacency_of(d.remove(k), (n - 2) as nat);
        lemma_with_edge_commutes(rest, e[k], e.last());
        lemma_adjacency_prefix(r, d.remove(k), (n - 2) as nat);
        assert(r[n - 2] == e.last());
        assert(d[k] == e[k]);
    }
}

/// The adjacency does not depend on the order of the edges: two listings
/// of the same edges, each as often in one as in the other, have the same
/// adjacency.
pub proof fn lemma_adjacency_unordered(e: Seq<EdgeView>, f: Seq<EdgeView>)
    requires
        e.to_multiset() == f.to_multiset(),
    ensures
        adjacency_of(e, e.len()) == adjacency_of(f, f.len()),
    decreases e.len(),
{
    e.to_multiset_ensures();
    f.to_multiset_ensures();
    if f.len() > 0 {
        let x = f.last();
        assert(f[f.len() - 1] == x);
        assert(f.to_multiset().count(x) > 0);
        assert(e.to_multiset().count(x) > 0);
        assert(e.contains(x));
        let k = choose|k: int| 0 <= k < e.len() && e[k] == x;
        let d = f.drop_last();
        assert(d =~= f.remove(f.len() - 1));
        assert(e.remove(k).to_multiset() =~= d.to_multiset());
        lemma_adjacency_unordered(e.remove(k), d);
        lemma_adjacency_moved(e, k);
        lemma_adjacency_prefix(f, d, (f.len() - 1) as nat);
    }
}

/// A list without edges holds none.
proof fn lemma_no_edges(s: Seq<EdgeView>)
    requires
        s.len() == 0,
    ensures
        s.to_multiset() == Multiset::<EdgeView>::empty(),
{
    s.to_multiset_ensures();
    lemma_multiset_empty_len(s.to_multiset());
    assert(s.to_multiset() =~= Multiset::<EdgeView>::empty());
}

/// The first `n` of the multisets, added up.
pub open spec fn total(ms: Seq<Multiset<EdgeView>>, n: nat) -> Multiset<EdgeView>
    decreases n,
{
    if n == 0 {
        Multiset::empty()
    } else {
        total(ms, (n - 1) as nat).add(ms[n - 1])
    }
}

proof fn lemma_total_prefix(a: Seq<Multiset<EdgeView>>, b: Seq<Multiset<EdgeView>>, n: nat)
    requires
        n <= a.len(),
        n <= b.len(),
        forall|i: int| 0 <= i < n ==> a[i] == b[i],
    ensures
        total(a, n) == total(b, n),
    decreases n,
{
    if n > 0 {
        lemma_total_prefix(a, b, (n - 1) as nat);
    }
}

/// One more element in one of the multisets is one more in the total.
proof fn lemma_total_update(ms: Seq<Multiset<EdgeView>>, q: int, x: EdgeView, n: nat)
    requires
        0 <= q < ms.len(),
        q < n <= ms.len(),
    ensures
        total(ms.update(q, ms[q].insert(x)), n) == total(ms, n).insert(x),
    decreases n,
{
    let up = ms.update(q, ms[q].insert(x));
    if n - 1 == q {
        lemma_total_prefix(ms, up, q as nat);
        assert(total(ms, q as nat).add(ms[q].insert(x)) =~= total(ms, q as nat).add(
            ms[q],
        ).insert(x));
    } else {
        lemma_total_update(ms, q, x, (n - 1) as nat);
        assert(up[n - 1] == ms[n - 1]);
        assert(total(ms, (n - 1) as nat).insert(x).add(ms[n - 1]) =~= total(
            ms,
            (n - 1) as nat,
        ).add(ms[n - 1]).insert(x));
    }
}

/// One more multiset among the others is added to the total.
proof fn lemma_total_insert(ms: Seq<Multiset<EdgeView>>, q: int, m: Multiset<EdgeView>, n: nat)
    requires
        0 <= q <= ms.len(),
        q < n <= ms.len() + 1,
    ensures
        total(ms.insert(q, m), n) == total(ms, (n - 1) as nat).add(m),
    decreases n,
{
    let ins = ms.insert(q, m);
    if n - 1 == q {
        lemma_total_prefix(ms, ins, q as nat);
        assert(ins[q] == m);
    } else {
        lemma_total_insert(ms, q, m, (n - 1) as nat);
        assert(ins[n - 1] == ms[n - 2]);
        assert(total(ms, (n - 2) as nat).add(m).add(ms[n - 2]) =~= total(ms, (n - 2) as nat).add(
            ms[n - 2],
        ).add(m));
    }
}

/// The edges of a group, by their place.
proof fn lemma_group_edges_at(source: Seq<char>, g: GroupView, n: nat)
    ensures
        group_edges(source, g, n).len() == n,
        forall|i: int|
            0 <= i < n ==> #[trigger] group_edges(source, g, n)[i] == (EdgeView {
                from: source,
                to: g.targets[i],
                edge_type: g.edge_type,
            }),
    decreases n,
{
    if n > 0 {
        lemma_group_edges_at(source, g, (n - 1) as nat);
    }
}

/// All edges of a group.
pub open spec fn edges_of_group(source: Seq<char>, g: GroupView) -> Seq<EdgeView> {
    group_edges(source, g, g.targets.len())
}

/// All edges of an entry.
pub open spec fn edges_of_entry(e: EntryView) -> Seq<EdgeView> {
    entry_edges(e, e.groups.len())
}

/// A group with one more target has one more edge.
proof fn lemma_group_with_target(source: Seq<char>, g: GroupView, x: Seq<char>)
    ensures
        edges_of_group(
            source,
            GroupView { edge_type: g.edge_type, targets: with_target(g.targets, x) },
        ).to_multiset() == edges_of_group(source, g).to_multiset().insert(
            EdgeView { from: source, to: x, edge_type: g.edge_type },
        ),
{
    let k = targets_below(g.targets, x, g.targets.len());
    lemma_targets_below(g.targets, x, g.targets.len());
    let more = GroupView { edge_type: g.edge_type, targets: with_target(g.targets, x) };
    let e = EdgeView { from: source, to: x, edge_type: g.edge_type };
    lemma_group_edges_at(source, g, g.targets.len());
    lemma_group_edges_at(source, more, more.targets.len());
    assert(edges_of_group(source, more) =~= edges_of_group(source, g).insert(k, e));
    to_multiset_insert(edges_of_group(source, g), k, e);
}

/// The multisets of the edges of the groups of a source.
pub open spec fn group_counts(source: Seq<char>, groups: Seq<GroupView>) -> Seq<
    Multiset<EdgeView>,
> {
    Seq::new(groups.len(), |i: int| edges_of_group(source, groups[i]).to_multiset())
}

proof fn lemma_entry_total(e: EntryView, n: nat)
    requires
        n <= e.groups.len(),
    ensures
        entry_edges(e, n).to_multiset() == total(group_counts(e.source, e.groups), n),
    decreases n,
{
    if n > 0 {
        lemma_entry_total(e, (n - 1) as nat);
        lemma_multiset_commutative(
            entry_edges(e, (n - 1) as nat),
            edges_of_group(e.source, e.groups[n - 1]),
        );
    } else {
        lemma_no_edges(entry_edges(e, 0));
    }
}

/// An entry with one more target under a type has one more edge.
proof fn lemma_entry_with_target(
    source: Seq<char>,
    groups: Seq<GroupView>,
    edge_type: EdgeType,
    x: Seq<char>,
)
    ensures
        edges_of_entry(
            EntryView { source, groups: with_group_target(groups, edge_type, x) },
        ).to_multiset() == edges_of_entry(EntryView { source, groups }).to_multiset().insert(
            EdgeView { from: source, to: x, edge_type },
        ),
{
    let q = groups_below(groups, edge_type, groups.len());
    lemma_groups_below(groups, edge_type, groups.len());
    let more = with_group_target(groups, edge_type, x);
    let e = EdgeView { from: source, to: x, edge_type };
    let ms = group_counts(source, groups);
    lemma_entry_total(EntryView { source, groups }, groups.len());
    lemma_entry_total(EntryView { source, groups: more }, more.len());
    if q < groups.len() && groups[q].edge_type == edge_type {
        lemma_group_with_target(source, groups[q], x);
        assert(group_counts(source, more) =~= ms.update(q, ms[q].insert(e)));
        lemma_total_update(ms, q, e, groups.len());
    } else {
        let single = GroupView { edge_type, targets: seq![x] };
        lemma_group_edges_at(source, single, 1);
        assert(edges_of_group(source, single) =~= Seq::<EdgeView>::empty().push(e));
        to_multiset_build(Seq::<EdgeView>::empty(), e);
        let m = edges_of_group(source, single).to_multiset();
        lemma_no_edges(Seq::<EdgeView>::empty());
        assert(m =~= Multiset::empty().insert(e));
        assert(group_counts(source, more) =~= ms.insert(q, m));
        lemma_total_insert(ms, q, m, (groups.len() + 1) as nat);
        assert(total(ms, groups.len()).add(m) =~= total(ms, groups.len()).insert(e));
    }
}

/// The multisets of the edges of the entries.
pub open spec fn entry_counts(a: Seq<EntryView>) -> Seq<Multiset<EdgeView>> {
    Seq::new(a.len(), |i: int| edges_of_entry(a[i]).to_multiset())
}

proof fn lemma_adjacency_total(a: Seq<EntryView>, n: nat)
    requires
        n <= a.len(),
    ensures
        edges_through(a, n).to_multiset() == total(entry_counts(a), n),
    decreases n,
{
    if n > 0 {
        lemma_adjacency_total(a, (n - 1) as nat);
        lemma_multiset_commutative(edges_through(a, (n - 1) as nat), edges_of_entry(a[n - 1]));
    } else {
        lemma_no_edges(edges_through(a, 0));
    }
}

/// An adjacency with an edge added holds that edge once more, and every
/// other as often as before.
pub proof fn lemma_with_edge_counts(a: Seq<EntryView>, e: EdgeView)
    ensures
        flat_edges(with_edge(a, e)).to_multiset() == flat_edges(a).to_multiset().insert(e),
{
    let p = entries_below(a, e.from, a.len());
    lemma_entries_below(a, e.from, a.len());
    let more = with_edge(a, e);
    let ms = entry_counts(a);
    let same = EdgeView { from: e.from, to: e.to, edge_type: e.edge_type };
    assert(same == e);
    lemma_adjacency_total(a, a.len());
    lemma_adjacency_total(more, more.len());
    if p < a.len() && a[p].source == e.from {
        lemma_entry_with_target(e.from, a[p].groups, e.edge_type, e.to);
        assert(a[p] == (EntryView { source: e.from, groups: a[p].groups }));
        assert(entry_counts(more) =~= ms.update(p, ms[p].insert(e)));
        lemma_total_update(ms, p, e, a.len());
    } else {
        let none = Seq::<GroupView>::empty();
        lemma_entry_with_target(e.from, none, e.edge_type, e.to);
        let m = edges_of_entry(
            EntryView { source: e.from, groups: with_group_target(none, e.edge_type, e.to) },
        ).to_multiset();
        lemma_no_edges(edges_of_entry(EntryView { source: e.from, groups: none }));
        assert(m =~= Multiset::empty().insert(e));
        assert(entry_counts(more) =~= ms.insert(p, m));
        lemma_total_insert(ms, p, m, (a.len() + 1) as nat);
        assert(total(ms, a.len()).add(m) =~= total(ms, a.len()).insert(e));
    }
}

/// The adjacency of the first `n` edges holds each edge as often as it
/// stands among them.
pub proof fn lemma_adjacency_counts(edges: Seq<EdgeView>, n: nat)
    requires
        n <= edges.len(),
    ensures
        flat_edges(adjacency_of(edges, n)).to_multiset() == edges.take(n as int).to_multiset(),
    decreases n,
{
    if n > 0 {
        lemma_adjacency_counts(edges, (n - 1) as nat);
        lemma_with_edge_counts(adjacency_of(edges, (n - 1) as nat), edges[n - 1]);
        assert(edges.take(n as int) =~= edges.take(n - 1).push(edges[n - 1]));
        to_multiset_build(edges.take(n - 1), edges[n - 1]);
    } else {
        lemma_no_edges(flat_edges(adjacency_of(edges, 0)));
        lemma_no_edges(edges.take(0));
    }
}

/// Sorting keeps each edge as often as it stood.
pub proof fn lemma_sorted_edges_counts(s: Seq<EdgeView>, n: nat)
    requires
        n <= s.len(),
    ensures
        sorted_edges(s, n).to_multiset() == s.take(n as int).to_multiset(),
    decreases n,
{
    if n > 0 {
        lemma_sorted_edges_counts(s, (n - 1) as nat);
        let before = sorted_edges(s, (n - 1) as nat);
        lemma_sorted_edges(s, (n - 1) as nat);
        lemma_edges_below(before, s[n - 1]);
        to_multiset_insert(before, edges_below(before, s[n - 1]), s[n - 1]);
        assert(s.take(n as int) =~= s.take(n - 1).push(s[n - 1]));
        to_multiset_build(s.take(n - 1), s[n - 1]);
    } else {
        lemma_no_edges(sorted_edges(s, 0));
        lemma_no_edges(s.take(0));
    }
}

/// Edges that are put in adjacency form and read back as a sorted list are
/// the same edges, each as often as it was given, in order.
pub proof fn lemma_edges_round_trip(edges: Seq<EdgeView>)
    ensures
        sorted_edges(
            flat_edges(adjacency_of(edges, edges.len())),
            flat_edges(adjacency_of(edges, edges.len())).len(),
        ).to_multiset() == edges.to_multiset(),
        edges_ordered(
            sorted_edges(
                flat_edges(adjacency_of(edges, edges.len())),
                flat_edges(adjacency_of(edges, edges.len())).len(),
            ),
        ),
{
    let flat = flat_edges(adjacency_of(edges, edges.len()));
    lemma_adjacency_counts(edges, edges.len());
    lemma_sorted_edges_counts(flat, flat.len());
    lemma_sorted_edges(flat, flat.len());
    assert(edges.take(edges.len() as int) =~= edges);
    assert(flat.take(flat.len() as int) =~= flat);
}

} // verus!
