//! The adjacency form of the edges: for each source, in the order of the
//! sources, for each edge type, in the order of the types, the sorted list
//! of targets.

use vstd::prelude::*;
use crate::model::{copy_string, texts, EdgeType, EdgeView, ReferenceEdge};
use crate::ordering::{
    edge_rank, edge_type_rank, lemma_str_lt_total, lemma_str_lt_transitive, str_lt, string_eq,
    string_lt,
};

verus! {

/// The targets that one source reaches by edges of one type.
#[derive(Debug, Clone)]
pub struct EdgeGroup {
    pub edge_type: EdgeType,
    pub targets: Vec<String>,
}

/// The edges of one source, grouped by type.
#[derive(Debug, Clone)]
pub struct EdgeMap {
    groups: Vec<EdgeGroup>,
}

/// A source and its edges.
#[derive(Debug, Clone)]
pub struct AdjacencyEntry {
    pub source: String,
    pub edges: EdgeMap,
}

/// The edges of a graph, grouped by source.
#[derive(Debug, Clone)]
pub struct AdjacencyGraph {
    entries: Vec<AdjacencyEntry>,
}

pub struct GroupView {
    pub edge_type: EdgeType,
    pub targets: Seq<Seq<char>>,
}

pub struct EntryView {
    pub source: Seq<char>,
    pub groups: Seq<GroupView>,
}

impl View for EdgeGroup {
    type V = GroupView;

    open spec fn view(&self) -> GroupView {
        GroupView { edge_type: self.edge_type, targets: texts(self.targets@) }
    }
}

impl View for EdgeMap {
    type V = Seq<GroupView>;

    closed spec fn view(&self) -> Seq<GroupView> {
        self.groups@.map_values(|g: EdgeGroup| g@)
    }
}

impl View for AdjacencyEntry {
    type V = EntryView;

    open spec fn view(&self) -> EntryView {
        EntryView { source: self.source@, groups: self.edges@ }
    }
}

impl View for AdjacencyGraph {
    type V = Seq<EntryView>;

    closed spec fn view(&self) -> Seq<EntryView> {
        self.entries@.map_values(|e: AdjacencyEntry| e@)
    }
}

/// The groups stand in the order of their edge types, no type twice.
pub open spec fn groups_sorted(g: Seq<GroupView>) -> bool {
    forall|i: int, j: int|
        0 <= i < j < g.len() ==> edge_rank((#[trigger] g[i]).edge_type) < edge_rank(
            (#[trigger] g[j]).edge_type,
        )
}

/// The entries stand in the order of their sources, no source twice, and
/// the groups of each stand in order.
pub open spec fn entries_sorted(a: Seq<EntryView>) -> bool {
    &&& forall|i: int, j: int|
        0 <= i < j < a.len() ==> str_lt((#[trigger] a[i]).source, (#[trigger] a[j]).source)
    &&& forall|i: int| 0 <= i < a.len() ==> groups_sorted((#[trigger] a[i]).groups)
}

/// Each target is followed by none that sorts before it.
pub open spec fn targets_sorted(t: Seq<Seq<char>>) -> bool {
    forall|i: int, j: int| 0 <= i < j < t.len() ==> !str_lt(#[trigger] t[j], #[trigger] t[i])
}

/// The number of leading groups whose type sorts before `t`.
pub open spec fn groups_below(g: Seq<GroupView>, t: EdgeType, n: nat) -> int
    decreases n,
{
    if n == 0 {
        0
    } else if n <= g.len() && edge_rank(g[n - 1].edge_type) < edge_rank(t) && groups_below(
        g,
        t,
        (n - 1) as nat,
    ) == n - 1 {
        n as int
    } else {
        groups_below(g, t, (n - 1) as nat)
    }
}

/// The number of leading entries whose source sorts before `key`.
pub open spec fn entries_below(a: Seq<EntryView>, key: Seq<char>, n: nat) -> int
    decreases n,
{
    if n == 0 {
        0
    } else if n <= a.len() && str_lt(a[n - 1].source, key) && entries_below(
        a,
        key,
        (n - 1) as nat,
    ) == n - 1 {
        n as int
    } else {
        entries_below(a, key, (n - 1) as nat)
    }
}

/// The number of leading targets that sort before `x`.
pub open spec fn targets_below(t: Seq<Seq<char>>, x: Seq<char>, n: nat) -> int
    decreases n,
{
    if n == 0 {
        0
    } else if n <= t.len() && str_lt(t[n - 1], x) && targets_below(t, x, (n - 1) as nat) == n
        - 1 {
        n as int
    } else {
        targets_below(t, x, (n - 1) as nat)
    }
}

/// The sorted targets with `x` added in its place.
pub open spec fn with_target(t: Seq<Seq<char>>, x: Seq<char>) -> Seq<Seq<char>> {
    t.insert(targets_below(t, x, t.len()), x)
}

/// The groups with `target` added under `edge_type`.
pub open spec fn with_group_target(g: Seq<GroupView>, edge_type: EdgeType, target: Seq<char>) -> Seq<
    GroupView,
> {
    let q = groups_below(g, edge_type, g.len());
    if q < g.len() && g[q].edge_type == edge_type {
        g.update(q, GroupView { edge_type, targets: with_target(g[q].targets, target) })
    } else {
        g.insert(q, GroupView { edge_type, targets: seq![target] })
    }
}

/// The adjacency with the edge `e` added.
pub open spec fn with_edge(a: Seq<EntryView>, e: EdgeView) -> Seq<EntryView> {
    let p = entries_below(a, e.from, a.len());
    if p < a.len() && a[p].source == e.from {
        a.update(
            p,
            EntryView {
                source: e.from,
                groups: with_group_target(a[p].groups, e.edge_type, e.to),
            },
        )
    } else {
        a.insert(
            p,
            EntryView {
                source: e.from,
                groups: with_group_target(Seq::empty(), e.edge_type, e.to),
            },
        )
    }
}

/// The adjacency of the first `n` edges.
pub open spec fn adjacency_of(edges: Seq<EdgeView>, n: nat) -> Seq<EntryView>
    decreases n,
{
    if n == 0 {
        Seq::empty()
    } else {
        with_edge(adjacency_of(edges, (n - 1) as nat), edges[n - 1])
    }
}

/// Every target list of the adjacency is sorted.
pub open spec fn all_targets_sorted(a: Seq<EntryView>) -> bool {
    forall|i: int, j: int|
        0 <= i < a.len() && 0 <= j < a[i].groups.len() ==> targets_sorted(
            #[trigger] a[i].groups[j].targets,
        )
}

pub proof fn lemma_targets_below(t: Seq<Seq<char>>, x: Seq<char>, n: nat)
    requires
        n <= t.len(),
    ensures
        0 <= targets_below(t, x, n) <= n,
        forall|j: int| 0 <= j < targets_below(t, x, n) ==> str_lt(#[trigger] t[j], x),
        targets_below(t, x, n) < n ==> !str_lt(t[targets_below(t, x, n)], x),
    decreases n,
{
    if n > 0 {
        lemma_targets_below(t, x, (n - 1) as nat);
    }
}

pub proof fn lemma_groups_below(g: Seq<GroupView>, t: EdgeType, n: nat)
    requires
        n <= g.len(),
    ensures
        0 <= groups_below(g, t, n) <= n,
        forall|j: int|
            0 <= j < groups_below(g, t, n) ==> edge_rank((#[trigger] g[j]).edge_type) < edge_rank(
                t,
            ),
        groups_below(g, t, n) < n ==> !(edge_rank(g[groups_below(g, t, n)].edge_type) < edge_rank(
            t,
        )),
    decreases n,
{
    if n > 0 {
        lemma_groups_below(g, t, (n - 1) as nat);
    }
}

pub proof fn lemma_entries_below(a: Seq<EntryView>, key: Seq<char>, n: nat)
    requires
        n <= a.len(),
    ensures
        0 <= entries_below(a, key, n) <= n,
        forall|j: int| 0 <= j < entries_below(a, key, n) ==> str_lt((#[trigger] a[j]).source, key),
        entries_below(a, key, n) < n ==> !str_lt(a[entries_below(a, key, n)].source, key),
    decreases n,
{
    if n > 0 {
        lemma_entries_below(a, key, (n - 1) as nat);
    }
}

/// Adding a target keeps the targets sorted.
pub proof fn lemma_with_target_sorted(t: Seq<Seq<char>>, x: Seq<char>)
    requires
        targets_sorted(t),
    ensures
        targets_sorted(with_target(t, x)),
{
    let p = targets_below(t, x, t.len());
    lemma_targets_below(t, x, t.len());
    let r = with_target(t, x);
    assert forall|i: int, j: int| 0 <= i < j < r.len() implies !str_lt(
        #[trigger] r[j],
        #[trigger] r[i],
    ) by {
        if j == p {
            // r[i] sorts before x
            crate::ordering::lemma_str_lt_asymmetric(t[i], x);
        } else if i == p {
            // r[j] is at or after t[p], which does not sort before x
            let y = t[j - 1];
            if str_lt(y, x) {
                if j - 1 > p {
                    lemma_str_lt_total(t[p], y);
                    lemma_str_lt_total(t[p], x);
                    if t[p] != y {
                        lemma_str_lt_transitive(t[p], y, x);
                    }
                }
            }
        } else {
            let ii = if i < p { i } else { i - 1 };
            let jj = if j < p { j } else { j - 1 };
            assert(r[i] == t[ii] && r[j] == t[jj]);
        }
    }
}

/// Adding a target under a type keeps the groups in order and the targets
/// sorted.
pub proof fn lemma_with_group_target(g: Seq<GroupView>, edge_type: EdgeType, target: Seq<char>)
    requires
        groups_sorted(g),
        forall|j: int| 0 <= j < g.len() ==> targets_sorted(#[trigger] g[j].targets),
    ensures
        groups_sorted(with_group_target(g, edge_type, target)),
        forall|j: int|
            0 <= j < with_group_target(g, edge_type, target).len() ==> targets_sorted(
                #[trigger] with_group_target(g, edge_type, target)[j].targets,
            ),
{
    let q = groups_below(g, edge_type, g.len());
    lemma_groups_below(g, edge_type, g.len());
    let r = with_group_target(g, edge_type, target);
    if q < g.len() && g[q].edge_type == edge_type {
        lemma_with_target_sorted(g[q].targets, target);
        assert forall|j: int| 0 <= j < r.len() implies targets_sorted(#[trigger] r[j].targets) by {
            if j != q {
                assert(r[j] == g[j]);
            }
        }
    } else {
        assert forall|i: int, j: int| 0 <= i < j < r.len() implies edge_rank(
            (#[trigger] r[i]).edge_type,
        ) < edge_rank((#[trigger] r[j]).edge_type) by {
            let ii = if i < q { i } else { i - 1 };
            let jj = if j < q { j } else { j - 1 };
            if i == q {
                assert(r[j] == g[jj]);
                if jj > q {
                    assert(edge_rank(g[q].edge_type) < edge_rank(g[jj].edge_type));
                }
            } else if j == q {
                assert(r[i] == g[ii]);
            } else {
                assert(r[i] == g[ii] && r[j] == g[jj]);
            }
        }
        assert forall|j: int| 0 <= j < r.len() implies targets_sorted(#[trigger] r[j].targets) by {
            if j < q {
                assert(r[j] == g[j]);
            } else if j > q {
                assert(r[j] == g[j - 1]);
            }
        }
    }
}

/// Adding an edge keeps the adjacency in order.
pub proof fn lemma_with_edge(a: Seq<EntryView>, e: EdgeView)
    requires
        entries_sorted(a),
        all_targets_sorted(a),
    ensures
        entries_sorted(with_edge(a, e)),
        all_targets_sorted(with_edge(a, e)),
{
    let p = entries_below(a, e.from, a.len());
    lemma_entries_below(a, e.from, a.len());
    let r = with_edge(a, e);
    if p < a.len() && a[p].source == e.from {
        assert forall|j: int| 0 <= j < a[p].groups.len() implies targets_sorted(
            #[trigger] a[p].groups[j].targets,
        ) by {}
        lemma_with_group_target(a[p].groups, e.edge_type, e.to);
        assert forall|i: int| 0 <= i < r.len() implies groups_sorted((#[trigger] r[i]).groups) by {
            if i != p {
                assert(r[i] == a[i]);
            }
        }
        assert forall|i: int, j: int|
            0 <= i < r.len() && 0 <= j < r[i].groups.len() implies targets_sorted(
            #[trigger] r[i].groups[j].targets,
        ) by {
            if i != p {
                assert(r[i] == a[i]);
                assert(targets_sorted(a[i].groups[j].targets));
            }
        }
        assert forall|i: int, j: int| 0 <= i < j < r.len() implies str_lt(
            (#[trigger] r[i]).source,
            (#[trigger] r[j]).source,
        ) by {
            assert(r[i].source == a[i].source && r[j].source == a[j].source);
        }
    } else {
        lemma_with_group_target(Seq::empty(), e.edge_type, e.to);
        assert forall|i: int, j: int| 0 <= i < j < r.len() implies str_lt(
            (#[trigger] r[i]).source,
            (#[trigger] r[j]).source,
        ) by {
            let ii = if i < p { i } else { i - 1 };
            let jj = if j < p { j } else { j - 1 };
            if i == p {
                assert(r[j] == a[jj]);
                lemma_str_lt_total(a[p].source, e.from);
                if jj > p {
                    lemma_str_lt_transitive(e.from, a[p].source, a[jj].source);
                }
            } else if j == p {
                assert(r[i] == a[ii]);
            } else {
                assert(r[i] == a[ii] && r[j] == a[jj]);
            }
        }
        assert forall|i: int| 0 <= i < r.len() implies groups_sorted((#[trigger] r[i]).groups) by {
            if i < p {
                assert(r[i] == a[i]);
            } else if i > p {
                assert(r[i] == a[i - 1]);
            }
        }
        assert forall|i: int, j: int|
            0 <= i < r.len() && 0 <= j < r[i].groups.len() implies targets_sorted(
            #[trigger] r[i].groups[j].targets,
        ) by {
            if i < p {
                assert(r[i] == a[i]);
                assert(targets_sorted(a[i].groups[j].targets));
            } else if i > p {
                assert(r[i] == a[i - 1]);
                assert(targets_sorted(a[i - 1].groups[j].targets));
            }
        }
    }
}

/// The adjacency of any edges has its sources in order, its types in
/// order, and its targets sorted.
pub proof fn lemma_adjacency_sorted(edges: Seq<EdgeView>, n: nat)
    ensures
        entries_sorted(adjacency_of(edges, n)),
        all_targets_sorted(adjacency_of(edges, n)),
    decreases n,
{
    if n > 0 {
        lemma_adjacency_sorted(edges, (n - 1) as nat);
        lemma_with_edge(adjacency_of(edges, (n - 1) as nat), edges[n - 1]);
    }
}


/// The groups with the group of `g`'s type replaced by `g`, or with `g`
/// added in its place.
pub open spec fn with_group(groups: Seq<GroupView>, g: GroupView) -> Seq<GroupView> {
    let q = groups_below(groups, g.edge_type, groups.len());
    if q < groups.len() && groups[q].edge_type == g.edge_type {
        groups.update(q, g)
    } else {
        groups.insert(q, g)
    }
}

/// The entries with the entry of `e`'s source replaced by `e`, or with `e`
/// added in its place.
pub open spec fn with_entry(a: Seq<EntryView>, e: EntryView) -> Seq<EntryView> {
    let p = entries_below(a, e.source, a.len());
    if p < a.len() && a[p].source == e.source {
        a.update(p, e)
    } else {
        a.insert(p, e)
    }
}

/// The targets under `t`, if a group has that type.
pub open spec fn targets_of(groups: Seq<GroupView>, t: EdgeType) -> Option<Seq<Seq<char>>> {
    if exists|i: int| 0 <= i < groups.len() && #[trigger] groups[i].edge_type == t {
        let i = choose|i: int| 0 <= i < groups.len() && #[trigger] groups[i].edge_type == t
            && forall|j: int| 0 <= j < i ==> #[trigger] groups[j].edge_type != t;
        Some(groups[i].targets)
    } else {
        None
    }
}

fn insert_target(targets: &mut Vec<String>, x: String)
    ensures
        texts(final(targets)@) == with_target(texts(old(targets)@), x@),
{
    let ghost t = texts(targets@);
    let mut p: usize = 0;
    while p < targets.len() && string_lt(targets[p].as_str(), x.as_str())
        invariant
            p <= targets.len(),
            targets@ == old(targets)@,
            t == texts(targets@),
            targets_below(t, x@, p as nat) == p,
        decreases targets.len() - p,
    {
        p += 1;
    }
    proof {
        lemma_below_stops_targets(t, x@, p as nat, t.len());
    }
    targets.insert(p, x);
    assert(texts(targets@) =~= t.insert(p as int, x@));
}

pub proof fn lemma_below_stops_targets(t: Seq<Seq<char>>, x: Seq<char>, p: nat, n: nat)
    requires
        p <= n <= t.len(),
        targets_below(t, x, p) == p,
        p < t.len() ==> !str_lt(t[p as int], x),
    ensures
        targets_below(t, x, n) == p,
    decreases n,
{
    if n > p {
        lemma_below_stops_targets(t, x, p, (n - 1) as nat);
    }
}

pub proof fn lemma_below_stops_groups(g: Seq<GroupView>, t: EdgeType, p: nat, n: nat)
    requires
        p <= n <= g.len(),
        groups_below(g, t, p) == p,
        p < g.len() ==> !(edge_rank(g[p as int].edge_type) < edge_rank(t)),
    ensures
        groups_below(g, t, n) == p,
    decreases n,
{
    if n > p {
        lemma_below_stops_groups(g, t, p, (n - 1) as nat);
    }
}

pub proof fn lemma_below_stops_entries(a: Seq<EntryView>, key: Seq<char>, p: nat, n: nat)
    requires
        p <= n <= a.len(),
        entries_below(a, key, p) == p,
        p < a.len() ==> !str_lt(a[p as int].source, key),
    ensures
        entries_below(a, key, n) == p,
    decreases n,
{
    if n > p {
        lemma_below_stops_entries(a, key, p, (n - 1) as nat);
    }
}

impl EdgeMap {
    pub fn new() -> (r: Self)
        ensures
            r@ == Seq::<GroupView>::empty(),
    {
        let r = EdgeMap { groups: Vec::new() };
        assert(r@ =~= Seq::<GroupView>::empty());
        r
    }

    /// The number of edge types that have a group.
    pub fn len(&self) -> (r: usize)
        ensures
            r == self@.len(),
    {
        self.groups.len()
    }

    /// The group at place `i`, if there is one.
    pub fn group(&self, i: usize) -> (r: Option<&EdgeGroup>)
        ensures
            match r {
                Some(g) => i < self@.len() && g@ == self@[i as int],
                None => i >= self@.len(),
            },
    {
        if i < self.groups.len() {
            Some(&self.groups[i])
        } else {
            None
        }
    }

    /// The place of the first group of type `t`.
    pub fn find(&self, t: EdgeType) -> (r: Option<usize>)
        ensures
            match r {
                Some(i) => i < self@.len() && self@[i as int].edge_type == t && forall|j: int|
                    0 <= j < i ==> #[trigger] self@[j].edge_type != t,
                None => forall|j: int| 0 <= j < self@.len() ==> #[trigger] self@[j].edge_type != t,
            },
    {
        let mut i: usize = 0;
        while i < self.groups.len()
            invariant
                i <= self.groups.len(),
                forall|j: int| 0 <= j < i ==> #[trigger] self@[j].edge_type != t,
            decreases self.groups.len() - i,
        {
            if edge_type_rank(self.groups[i].edge_type) == edge_type_rank(t) {
                return Some(i);
            }
            i += 1;
        }
        None
    }

    pub fn contains_key(&self, t: &EdgeType) -> (r: bool)
        ensures
            r == targets_of(self@, *t).is_some(),
    {
        self.find(*t).is_some()
    }

    /// The targets under `t`.
    pub fn get(&self, t: &EdgeType) -> (r: Option<&Vec<String>>)
        ensures
            match r {
                Some(v) => Some(texts(v@)) == targets_of(self@, *t),
                None => targets_of(self@, *t).is_none(),
            },
    {
        match self.find(*t) {
            Some(i) => {
                proof {
                    let k = choose|k: int|
                        0 <= k < self@.len() && #[trigger] self@[k].edge_type == *t && forall|
                            j: int,
                        |
                            0 <= j < k ==> #[trigger] self@[j].edge_type != *t;
                    assert(k == i);
                }
                Some(&self.groups[i].targets)
            },
            None => None,
        }
    }

    fn position(&self, t: EdgeType) -> (p: usize)
        ensures
            p == groups_below(self@, t, self@.len()),
            p <= self@.len(),
    {
        let mut p: usize = 0;
        while p < self.groups.len() && edge_type_rank(self.groups[p].edge_type) < edge_type_rank(t)
            invariant
                p <= self.groups.len(),
                groups_below(self@, t, p as nat) == p,
            decreases self.groups.len() - p,
        {
            p += 1;
        }
        proof {
            lemma_below_stops_groups(self@, t, p as nat, self@.len());
        }
        p
    }

    /// Puts `targets` under `edge_type`, in place of what stood there.
    pub fn insert(&mut self, edge_type: EdgeType, targets: Vec<String>)
        ensures
            final(self)@ == with_group(
                old(self)@,
                GroupView { edge_type, targets: texts(targets@) },
            ),
    {
        let q = self.position(edge_type);
        let g = EdgeGroup { edge_type, targets };
        if q < self.groups.len() && edge_type_rank(self.groups[q].edge_type) == edge_type_rank(
            edge_type,
        ) {
            let _ = self.groups.remove(q);
            self.groups.insert(q, g);
            assert(self@ =~= old(self)@.update(q as int, g@));
        } else {
            self.groups.insert(q, g);
            assert(self@ =~= old(self)@.insert(q as int, g@));
        }
    }

    /// Adds `target`, in its sorted place, to the targets under `edge_type`.
    pub fn add_target(&mut self, edge_type: EdgeType, target: String)
        ensures
            final(self)@ == with_group_target(old(self)@, edge_type, target@),
    {
        let q = self.position(edge_type);
        if q < self.groups.len() && edge_type_rank(self.groups[q].edge_type) == edge_type_rank(
            edge_type,
        ) {
            let mut g = self.groups.remove(q);
            insert_target(&mut g.targets, target);
            self.groups.insert(q, g);
            assert(self@ =~= old(self)@.update(
                q as int,
                GroupView {
                    edge_type,
                    targets: with_target(old(self)@[q as int].targets, target@),
                },
            ));
        } else {
            let mut targets: Vec<String> = Vec::new();
            targets.push(target);
            let g = EdgeGroup { edge_type, targets };
            assert(g@.targets =~= seq![target@]);
            self.groups.insert(q, g);
            assert(self@ =~= old(self)@.insert(q as int, g@));
        }
    }
}

/// The edges of `key`, if an entry has that source.
pub open spec fn groups_of(a: Seq<EntryView>, key: Seq<char>) -> Option<Seq<GroupView>> {
    if exists|i: int| 0 <= i < a.len() && #[trigger] a[i].source == key {
        let i = choose|i: int|
            0 <= i < a.len() && #[trigger] a[i].source == key && forall|j: int|
                0 <= j < i ==> #[trigger] a[j].source != key;
        Some(a[i].groups)
    } else {
        None
    }
}

impl AdjacencyGraph {
    pub fn new() -> (r: Self)
        ensures
            r@ == Seq::<EntryView>::empty(),
    {
        let r = AdjacencyGraph { entries: Vec::new() };
        assert(r@ =~= Seq::<EntryView>::empty());
        r
    }

    /// The number of sources.
    pub fn len(&self) -> (r: usize)
        ensures
            r == self@.len(),
    {
        self.entries.len()
    }

    pub fn is_empty(&self) -> (r: bool)
        ensures
            r == (self@.len() == 0),
    {
        self.entries.len() == 0
    }

    /// The entry at place `i`, if there is one.
    pub fn entry(&self, i: usize) -> (r: Option<&AdjacencyEntry>)
        ensures
            match r {
                Some(e) => i < self@.len() && e@ == self@[i as int],
                None => i >= self@.len(),
            },
    {
        if i < self.entries.len() {
            Some(&self.entries[i])
        } else {
            None
        }
    }

    /// The place of the first entry whose source is `key`.
    pub fn find(&self, key: &str) -> (r: Option<usize>)
        ensures
            match r {
                Some(i) => i < self@.len() && self@[i as int].source == key@ && forall|j: int|
                    0 <= j < i ==> #[trigger] self@[j].source != key@,
                None => forall|j: int| 0 <= j < self@.len() ==> #[trigger] self@[j].source != key@,
            },
    {
        let mut i: usize = 0;
        while i < self.entries.len()
            invariant
                i <= self.entries.len(),
                forall|j: int| 0 <= j < i ==> #[trigger] self@[j].source != key@,
            decreases self.entries.len() - i,
        {
            if string_eq(self.entries[i].source.as_str(), key) {
                return Some(i);
            }
            i += 1;
        }
        None
    }

    pub fn contains_key(&self, key: &str) -> (r: bool)
        ensures
            r == groups_of(self@, key@).is_some(),
    {
        self.find(key).is_some()
    }

    /// The edges of the source `key`.
    pub fn get(&self, key: &str) -> (r: Option<&EdgeMap>)
        ensures
            match r {
                Some(m) => Some(m@) == groups_of(self@, key@),
                None => groups_of(self@, key@).is_none(),
            },
    {
        match self.find(key) {
            Some(i) => {
                proof {
                    let k = choose|k: int|
                        0 <= k < self@.len() && #[trigger] self@[k].source == key@ && forall|
                            j: int,
                        |
                            0 <= j < k ==> #[trigger] self@[j].source != key@;
                    assert(k == i);
                }
                Some(&self.entries[i].edges)
            },
            None => None,
        }
    }

    fn position(&self, key: &str) -> (p: usize)
        ensures
            p == entries_below(self@, key@, self@.len()),
            p <= self@.len(),
    {
        let mut p: usize = 0;
        while p < self.entries.len() && string_lt(self.entries[p].source.as_str(), key)
            invariant
                p <= self.entries.len(),
                entries_below(self@, key@, p as nat) == p,
            decreases self.entries.len() - p,
        {
            p += 1;
        }
        proof {
            lemma_below_stops_entries(self@, key@, p as nat, self@.len());
        }
        p
    }

    /// Puts `edges` under `source`, in place of what stood there.
    pub fn insert(&mut self, source: String, edges: EdgeMap)
        ensures
            final(self)@ == with_entry(old(self)@, EntryView { source: source@, groups: edges@ }),
    {
        let p = self.position(source.as_str());
        if p < self.entries.len() && string_eq(self.entries[p].source.as_str(), source.as_str()) {
            let e = AdjacencyEntry { source, edges };
            let _ = self.entries.remove(p);
            self.entries.insert(p, e);
            assert(self@ =~= old(self)@.update(p as int, e@));
        } else {
            let e = AdjacencyEntry { source, edges };
            self.entries.insert(p, e);
            assert(self@ =~= old(self)@.insert(p as int, e@));
        }
    }

    /// Adds the edge `e`.
    pub fn add_edge(&mut self, e: &ReferenceEdge)
        ensures
            final(self)@ == with_edge(old(self)@, e@),
    {
        let p = self.position(e.from.as_str());
        if p < self.entries.len() && string_eq(self.entries[p].source.as_str(), e.from.as_str()) {
            let mut entry = self.entries.remove(p);
            entry.edges.add_target(e.edge_type, copy_string(&e.to));
            self.entries.insert(p, entry);
            assert(self@ =~= old(self)@.update(
                p as int,
                EntryView {
                    source: e.from@,
                    groups: with_group_target(old(self)@[p as int].groups, e.edge_type, e.to@),
                },
            ));
        } else {
            let mut edges = EdgeMap::new();
            edges.add_target(e.edge_type, copy_string(&e.to));
            let entry = AdjacencyEntry { source: copy_string(&e.from), edges };
            self.entries.insert(p, entry);
            assert(self@ =~= old(self)@.insert(p as int, entry@));
        }
    }

    /// The adjacency form of a list of edges.
    pub fn from_edges(edges: &Vec<ReferenceEdge>) -> (r: Self)
        ensures
            r@ == adjacency_of(crate::model::edge_views(edges@), edges@.len()),
            entries_sorted(r@),
            all_targets_sorted(r@),
    {
        let mut r = AdjacencyGraph::new();
        let mut i: usize = 0;
        while i < edges.len()
            invariant
                i <= edges.len(),
                r@ == adjacency_of(crate::model::edge_views(edges@), i as nat),
            decreases edges.len() - i,
        {
            r.add_edge(&edges[i]);
            i += 1;
        }
        proof {
            lemma_adjacency_sorted(crate::model::edge_views(edges@), edges@.len());
        }
        r
    }
}


/// The edges from `source` to the first `n` targets of a group.
pub open spec fn group_edges(source: Seq<char>, g: GroupView, n: nat) -> Seq<EdgeView>
    decreases n,
{
    if n == 0 {
        Seq::empty()
    } else {
        group_edges(source, g, (n - 1) as nat).push(
            EdgeView { from: source, to: g.targets[n - 1], edge_type: g.edge_type },
        )
    }
}

/// The edges of the first `n` groups of an entry.
pub open spec fn entry_edges(e: EntryView, n: nat) -> Seq<EdgeView>
    decreases n,
{
    if n == 0 {
        Seq::empty()
    } else {
        entry_edges(e, (n - 1) as nat) + group_edges(
            e.source,
            e.groups[n - 1],
            e.groups[n - 1].targets.len(),
        )
    }
}

/// The edges of the first `n` entries, in the order in which the adjacency
/// holds them.
pub open spec fn edges_through(a: Seq<EntryView>, n: nat) -> Seq<EdgeView>
    decreases n,
{
    if n == 0 {
        Seq::empty()
    } else {
        edges_through(a, (n - 1) as nat) + entry_edges(a[n - 1], a[n - 1].groups.len())
    }
}

/// All edges of an adjacency, in the order in which it holds them.
pub open spec fn flat_edges(a: Seq<EntryView>) -> Seq<EdgeView> {
    edges_through(a, a.len())
}

impl AdjacencyGraph {
    /// The edges as a flat list, in the order in which the adjacency holds
    /// them.
    pub fn to_edges(&self) -> (r: Vec<ReferenceEdge>)
        ensures
            crate::model::edge_views(r@) == flat_edges(self@),
    {
        let mut out: Vec<ReferenceEdge> = Vec::new();
        let mut i: usize = 0;
        assert(crate::model::edge_views(out@) =~= Seq::<EdgeView>::empty());
        while i < self.entries.len()
            invariant
                i <= self.entries.len(),
                crate::model::edge_views(out@) == edges_through(self@, i as nat),
            decreases self.entries.len() - i,
        {
            let entry = &self.entries[i];
            let ghost base = crate::model::edge_views(out@);
            let mut j: usize = 0;
            assert(base + entry_edges(entry@, 0) =~= base);
            while j < entry.edges.groups.len()
                invariant
                    j <= entry.edges.groups.len(),
                    entry.edges@.len() == entry.edges.groups.len(),
                    crate::model::edge_views(out@) == base + entry_edges(entry@, j as nat),
                decreases entry.edges.groups.len() - j,
            {
                let g = &entry.edges.groups[j];
                assert(g@ == entry@.groups[j as int]);
                let ghost base2 = crate::model::edge_views(out@);
                let mut k: usize = 0;
                assert(base2 + group_edges(entry@.source, g@, 0) =~= base2);
                while k < g.targets.len()
                    invariant
                        k <= g.targets.len(),
                        crate::model::edge_views(out@) == base2 + group_edges(
                            entry@.source,
                            g@,
                            k as nat,
                        ),
                    decreases g.targets.len() - k,
                {
                    let e = ReferenceEdge {
                        from: copy_string(&entry.source),
                        to: copy_string(&g.targets[k]),
                        edge_type: g.edge_type,
                    };
                    proof {
                        crate::model::lemma_edge_views_push(out@, e);
                        assert((base2 + group_edges(entry@.source, g@, k as nat)).push(e@)
                            =~= base2 + group_edges(entry@.source, g@, (k + 1) as nat));
                    }
                    out.push(e);
                    k += 1;
                }
                proof {
                    assert(base + entry_edges(entry@, j as nat) + group_edges(
                        entry@.source,
                        g@,
                        g@.targets.len(),
                    ) =~= base + entry_edges(entry@, (j + 1) as nat));
                }
                j += 1;
            }
            i += 1;
        }
        out
    }
}


/// Whether the groups hold `target` under `edge_type`.
pub open spec fn groups_hold(g: Seq<GroupView>, edge_type: EdgeType, target: Seq<char>) -> bool {
    exists|j: int, k: int|
        0 <= j < g.len() && 0 <= k < g[j].targets.len() && g[j].edge_type == edge_type
            && #[trigger] g[j].targets[k] == target
}

/// Whether the adjacency holds the edge `x`.
pub open spec fn holds_edge(a: Seq<EntryView>, x: EdgeView) -> bool {
    exists|i: int|
        0 <= i < a.len() && (#[trigger] a[i]).source == x.from && groups_hold(
            a[i].groups,
            x.edge_type,
            x.to,
        )
}

/// The targets with one added hold that one and those that they held.
pub proof fn lemma_with_target_holds(t: Seq<Seq<char>>, x: Seq<char>, y: Seq<char>)
    ensures
        with_target(t, x).contains(y) <==> (t.contains(y) || y == x),
{
    let p = targets_below(t, x, t.len());
    lemma_targets_below(t, x, t.len());
    let r = with_target(t, x);
    if r.contains(y) {
        let i = choose|i: int| 0 <= i < r.len() && r[i] == y;
        if i < p {
            assert(t[i] == y);
        } else if i > p {
            assert(t[i - 1] == y);
        }
    }
    if t.contains(y) {
        let i = choose|i: int| 0 <= i < t.len() && t[i] == y;
        if i < p {
            assert(r[i] == y);
        } else {
            assert(r[i + 1] == y);
        }
    }
    if y == x {
        assert(r[p] == y);
    }
}

/// The groups with a target added under a type hold that target under
/// that type and what they held.
pub proof fn lemma_with_group_target_holds(
    g: Seq<GroupView>,
    edge_type: EdgeType,
    target: Seq<char>,
    ty: EdgeType,
    y: Seq<char>,
)
    ensures
        groups_hold(with_group_target(g, edge_type, target), ty, y) <==> (groups_hold(g, ty, y)
            || (ty == edge_type && y == target)),
{
    let q = groups_below(g, edge_type, g.len());
    lemma_groups_below(g, edge_type, g.len());
    let r = with_group_target(g, edge_type, target);
    let replaced = q < g.len() && g[q].edge_type == edge_type;
    if replaced {
        lemma_with_target_holds(g[q].targets, target, y);
    }
    if groups_hold(r, ty, y) {
        let (j, k) = choose|j: int, k: int|
            0 <= j < r.len() && 0 <= k < r[j].targets.len() && r[j].edge_type == ty
                && #[trigger] r[j].targets[k] == y;
        if replaced {
            if j == q {
                assert(r[q].targets.contains(y));
                if y != target {
                    let k2 = choose|k2: int|
                        0 <= k2 < g[q].targets.len() && g[q].targets[k2] == y;
                    assert(g[q].targets[k2] == y);
                }
            } else {
                assert(g[j].targets[k] == y);
            }
        } else {
            if j < q {
                assert(g[j].targets[k] == y);
            } else if j > q {
                assert(g[j - 1].targets[k] == y);
            } else {
                assert(r[q].targets =~= seq![target]);
            }
        }
    }
    if groups_hold(g, ty, y) {
        let (j, k) = choose|j: int, k: int|
            0 <= j < g.len() && 0 <= k < g[j].targets.len() && g[j].edge_type == ty
                && #[trigger] g[j].targets[k] == y;
        if replaced {
            if j == q {
                assert(g[q].targets.contains(y));
                let k2 = choose|k2: int| 0 <= k2 < r[q].targets.len() && r[q].targets[k2] == y;
                assert(r[q].targets[k2] == y);
            } else {
                assert(r[j].targets[k] == y);
            }
        } else {
            if j < q {
                assert(r[j].targets[k] == y);
            } else {
                assert(r[j + 1].targets[k] == y);
            }
        }
    }
    if ty == edge_type && y == target {
        if replaced {
            assert(r[q].targets.contains(y));
            let k2 = choose|k2: int| 0 <= k2 < r[q].targets.len() && r[q].targets[k2] == y;
            assert(r[q].targets[k2] == y);
        } else {
            assert(r[q].targets[0] == y);
        }
    }
}

/// The adjacency with an edge added holds that edge and what it held.
pub proof fn lemma_with_edge_holds(a: Seq<EntryView>, e: EdgeView, x: EdgeView)
    ensures
        holds_edge(with_edge(a, e), x) <==> (holds_edge(a, x) || x == e),
{
    let p = entries_below(a, e.from, a.len());
    lemma_entries_below(a, e.from, a.len());
    let r = with_edge(a, e);
    let replaced = p < a.len() && a[p].source == e.from;
    let old_groups = if replaced {
        a[p].groups
    } else {
        Seq::<GroupView>::empty()
    };
    lemma_with_group_target_holds(old_groups, e.edge_type, e.to, x.edge_type, x.to);
    assert(r[p].groups == with_group_target(old_groups, e.edge_type, e.to));
    assert(r[p].source == e.from);
    assert(!groups_hold(Seq::<GroupView>::empty(), x.edge_type, x.to));
    if holds_edge(r, x) {
        let i = choose|i: int|
            0 <= i < r.len() && (#[trigger] r[i]).source == x.from && groups_hold(
                r[i].groups,
                x.edge_type,
                x.to,
            );
        if i == p {
            if groups_hold(old_groups, x.edge_type, x.to) {
                assert(a[p].source == x.from);
            }
        } else if replaced {
            assert(r[i] == a[i]);
        } else if i < p {
            assert(r[i] == a[i]);
        } else {
            assert(r[i] == a[i - 1]);
        }
    }
    if holds_edge(a, x) {
        let i = choose|i: int|
            0 <= i < a.len() && (#[trigger] a[i]).source == x.from && groups_hold(
                a[i].groups,
                x.edge_type,
                x.to,
            );
        if replaced {
            if i == p {
                assert(r[p].source == x.from);
            } else {
                assert(r[i] == a[i]);
            }
        } else if i < p {
            assert(r[i] == a[i]);
        } else {
            assert(r[i + 1] == a[i]);
        }
    }
    if x == e {
        assert(holds_edge(r, x)) by {
            assert(r[p].source == x.from && groups_hold(r[p].groups, x.edge_type, x.to));
        }
    }
}

/// The adjacency of a list of edges holds exactly the edges of the list:
/// none is lost and none is added.
pub proof fn lemma_adjacency_holds(edges: Seq<EdgeView>, n: nat, x: EdgeView)
    requires
        n <= edges.len(),
    ensures
        holds_edge(adjacency_of(edges, n), x) <==> exists|i: int|
            0 <= i < n && #[trigger] edges[i] == x,
    decreases n,
{
    if n == 0 {
        assert(!holds_edge(Seq::<EntryView>::empty(), x));
    } else {
        lemma_adjacency_holds(edges, (n - 1) as nat, x);
        lemma_with_edge_holds(adjacency_of(edges, (n - 1) as nat), edges[n - 1], x);
        if exists|i: int| 0 <= i < n && #[trigger] edges[i] == x {
            let i = choose|i: int| 0 <= i < n && #[trigger] edges[i] == x;
            if i < n - 1 {
                assert(0 <= i < n - 1 && edges[i] == x);
            }
        }
        if holds_edge(adjacency_of(edges, (n - 1) as nat), x) {
            let i = choose|i: int| 0 <= i < n - 1 && #[trigger] edges[i] == x;
            assert(0 <= i < n && edges[i] == x);
        }
    }
}


/// The edges of a group run from the source, have the type of the group,
/// and run to its targets.
pub proof fn lemma_group_edges(source: Seq<char>, g: GroupView, n: nat, x: EdgeView)
    requires
        n <= g.targets.len(),
    ensures
        group_edges(source, g, n).contains(x) <==> (x.from == source && x.edge_type == g.edge_type
            && exists|k: int| 0 <= k < n && #[trigger] g.targets[k] == x.to),
    decreases n,
{
    if n == 0 {
        assert(group_edges(source, g, 0) =~= Seq::<EdgeView>::empty());
    } else {
        lemma_group_edges(source, g, (n - 1) as nat, x);
        let prev = group_edges(source, g, (n - 1) as nat);
        let e = EdgeView { from: source, to: g.targets[n - 1], edge_type: g.edge_type };
        let r = group_edges(source, g, n);
        assert(r == prev.push(e));
        if r.contains(x) {
            let i = choose|i: int| 0 <= i < r.len() && r[i] == x;
            if i < prev.len() {
                assert(prev[i] == x);
                let k = choose|k: int| 0 <= k < n - 1 && #[trigger] g.targets[k] == x.to;
                assert(0 <= k < n && g.targets[k] == x.to);
            } else {
                assert(g.targets[n - 1] == x.to);
            }
        }
        if x.from == source && x.edge_type == g.edge_type && exists|k: int|
            0 <= k < n && #[trigger] g.targets[k] == x.to {
            let k = choose|k: int| 0 <= k < n && #[trigger] g.targets[k] == x.to;
            if k < n - 1 {
                assert(0 <= k < n - 1 && g.targets[k] == x.to);
                let i = choose|i: int| 0 <= i < prev.len() && prev[i] == x;
                assert(r[i] == x);
            } else {
                assert(x == e);
                assert(r[prev.len() as int] == x);
            }
        }
    }
}

/// The edges of the first `n` groups of an entry.
pub proof fn lemma_entry_edges(e: EntryView, n: nat, x: EdgeView)
    requires
        n <= e.groups.len(),
    ensures
        entry_edges(e, n).contains(x) <==> (x.from == e.source && groups_hold(
            e.groups.take(n as int),
            x.edge_type,
            x.to,
        )),
    decreases n,
{
    let g = e.groups.take(n as int);
    if n == 0 {
        assert(entry_edges(e, 0) =~= Seq::<EdgeView>::empty());
        assert(!groups_hold(g, x.edge_type, x.to));
    } else {
        lemma_entry_edges(e, (n - 1) as nat, x);
        let last = e.groups[n - 1];
        lemma_group_edges(e.source, last, last.targets.len(), x);
        let prev = entry_edges(e, (n - 1) as nat);
        let added = group_edges(e.source, last, last.targets.len());
        let r = entry_edges(e, n);
        assert(r == prev + added);
        let g1 = e.groups.take(n - 1);
        if r.contains(x) {
            let i = choose|i: int| 0 <= i < r.len() && r[i] == x;
            if i < prev.len() {
                assert(prev[i] == x);
                let (j, k) = choose|j: int, k: int|
                    0 <= j < g1.len() && 0 <= k < g1[j].targets.len() && g1[j].edge_type
                        == x.edge_type && #[trigger] g1[j].targets[k] == x.to;
                assert(g[j].targets[k] == x.to);
            } else {
                assert(added[i - prev.len()] == x);
                let k = choose|k: int|
                    0 <= k < last.targets.len() && #[trigger] last.targets[k] == x.to;
                assert(g[n - 1].targets[k] == x.to);
            }
        }
        if x.from == e.source && groups_hold(g, x.edge_type, x.to) {
            let (j, k) = choose|j: int, k: int|
                0 <= j < g.len() && 0 <= k < g[j].targets.len() && g[j].edge_type == x.edge_type
                    && #[trigger] g[j].targets[k] == x.to;
            if j < n - 1 {
                assert(g1[j].targets[k] == x.to);
                let i = choose|i: int| 0 <= i < prev.len() && prev[i] == x;
                assert(r[i] == x);
            } else {
                assert(last.targets[k] == x.to);
                let i = choose|i: int| 0 <= i < added.len() && added[i] == x;
                assert(r[prev.len() + i] == x);
            }
        }
    }
}

/// The flat list of the edges of an adjacency holds exactly the edges that
/// the adjacency holds.
pub proof fn lemma_edges_through(a: Seq<EntryView>, n: nat, x: EdgeView)
    requires
        n <= a.len(),
    ensures
        edges_through(a, n).contains(x) <==> holds_edge(a.take(n as int), x),
    decreases n,
{
    let t = a.take(n as int);
    if n == 0 {
        assert(edges_through(a, 0) =~= Seq::<EdgeView>::empty());
        assert(!holds_edge(t, x));
    } else {
        lemma_edges_through(a, (n - 1) as nat, x);
        let last = a[n - 1];
        lemma_entry_edges(last, last.groups.len(), x);
        assert(last.groups.take(last.groups.len() as int) =~= last.groups);
        let prev = edges_through(a, (n - 1) as nat);
        let added = entry_edges(last, last.groups.len());
        let r = edges_through(a, n);
        assert(r == prev + added);
        let t1 = a.take(n - 1);
        if r.contains(x) {
            let i = choose|i: int| 0 <= i < r.len() && r[i] == x;
            if i < prev.len() {
                assert(prev[i] == x);
                let w = choose|w: int|
                    0 <= w < t1.len() && (#[trigger] t1[w]).source == x.from && groups_hold(
                        t1[w].groups,
                        x.edge_type,
                        x.to,
                    );
                assert(t[w] == t1[w]);
            } else {
                assert(added[i - prev.len()] == x);
                assert(t[n - 1] == last);
            }
        }
        if holds_edge(t, x) {
            let w = choose|w: int|
                0 <= w < t.len() && (#[trigger] t[w]).source == x.from && groups_hold(
                    t[w].groups,
                    x.edge_type,
                    x.to,
                );
            if w < n - 1 {
                assert(t1[w] == t[w]);
                let i = choose|i: int| 0 <= i < prev.len() && prev[i] == x;
                assert(r[i] == x);
            } else {
                let i = choose|i: int| 0 <= i < added.len() && added[i] == x;
                assert(r[prev.len() + i] == x);
            }
        }
    }
}

/// Reshaping loses no edge and adds none: the edges of the adjacency of a
/// list of edges are the edges of the list.
pub proof fn lemma_no_information_loss(edges: Seq<EdgeView>, x: EdgeView)
    ensures
        flat_edges(adjacency_of(edges, edges.len())).contains(x) <==> edges.contains(x),
{
    let a = adjacency_of(edges, edges.len());
    lemma_edges_through(a, a.len(), x);
    assert(a.take(a.len() as int) =~= a);
    lemma_adjacency_holds(edges, edges.len(), x);
    if edges.contains(x) {
        let i = choose|i: int| 0 <= i < edges.len() && edges[i] == x;
        assert(0 <= i < edges.len() && edges[i] == x);
    }
}

} // verus!
