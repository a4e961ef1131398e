//! The two-pass conversion of a decoded index into the flat graph.
//!
//! The first pass records an anchor for every file and every definition,
//! so that the second can resolve parents and reference targets which are
//! defined in a later document. The second pass, document by document,
//! makes a node of each definition that the level of detail keeps and an
//! edge of each reference, attributed to the smallest scope that holds it.

use vstd::hash_map::StringHashMap;
use vstd::prelude::*;
use crate::anchor::{
    file_anchor, fingerprint, fingerprint_of, resolved, symbol_anchor, AnchorRegistry,
};
use crate::enricher::{EnrichmentResult, EnrichmentView};
use crate::model::{
    edge_views, lemma_node_views_push, node_views, EdgeType, EdgeView, GraphView, LogicMetadata,
    MetadataView, NodeView, ProjectMetadata, ReferenceEdge, ScipSymbolKind, SymbolNode, YcgGraph,
};
use crate::ordering::{add_edge, edges_sorted, insert_edge, lemma_insert_edge};
use crate::scip::{Document, Index, Occurrence, SymbolInformation};
use crate::scope::{enclosing_scope, find_enclosing_scope, Scope};
use crate::symbol::{
    display_name, extract_name_from_uri, extract_parent_raw, infer_kind_from_uri, map_kind,
    parent_raw, symbol_kind,
};
use crate::text::{chars_of, contains_lit, contains_sub, has_char};
use crate::LevelOfDetail;

verus! {

/// The kind table after the first `n` of `infos` were entered into `m`; a
/// later entry for a symbol replaces an earlier one.
pub open spec fn kinds_with(m: Map<Seq<char>, i32>, infos: Seq<SymbolInformation>, n: nat) -> Map<
    Seq<char>,
    i32,
>
    decreases n,
{
    if n == 0 {
        m
    } else {
        kinds_with(m, infos, (n - 1) as nat).insert(infos[n - 1].symbol@, infos[n - 1].kind)
    }
}

/// The kind table after the tables of the first `n` documents were entered.
pub open spec fn kinds_through(m: Map<Seq<char>, i32>, docs: Seq<Document>, n: nat) -> Map<
    Seq<char>,
    i32,
>
    decreases n,
{
    if n == 0 {
        m
    } else {
        kinds_with(
            kinds_through(m, docs, (n - 1) as nat),
            docs[n - 1].symbols@,
            docs[n - 1].symbols@.len(),
        )
    }
}

/// The kind number of every symbol that the index names: the external
/// symbols first, then each document's table.
pub open spec fn kind_table(index: Index) -> Map<Seq<char>, i32> {
    kinds_through(
        kinds_with(Map::empty(), index.external_symbols@, index.external_symbols@.len()),
        index.documents@,
        index.documents@.len(),
    )
}

/// The kind number of `symbol`, zero where the table has none.
pub open spec fn raw_kind(kinds: Map<Seq<char>, i32>, symbol: Seq<char>) -> i32 {
    if kinds.contains_key(symbol) {
        kinds[symbol]
    } else {
        0
    }
}

/// The registry after the definitions among the first `n` occurrences were
/// recorded.
pub open spec fn registered_with(reg: Map<u64, Seq<char>>, occs: Seq<Occurrence>, n: nat) -> Map<
    u64,
    Seq<char>,
>
    decreases n,
{
    if n == 0 {
        reg
    } else {
        let r = registered_with(reg, occs, (n - 1) as nat);
        let o = occs[n - 1];
        if o.defines() {
            r.insert(fingerprint_of(o.symbol@), symbol_anchor(o.symbol@))
        } else {
            r
        }
    }
}

/// The registry after the first `n` documents: each file under the
/// fingerprint of its path, then its definitions.
pub open spec fn registered_through(reg: Map<u64, Seq<char>>, docs: Seq<Document>, n: nat) -> Map<
    u64,
    Seq<char>,
>
    decreases n,
{
    if n == 0 {
        reg
    } else {
        let r = registered_through(reg, docs, (n - 1) as nat);
        let d = docs[n - 1];
        registered_with(
            r.insert(fingerprint_of(d.relative_path@), file_anchor(d.relative_path@)),
            d.occurrences@,
            d.occurrences@.len(),
        )
    }
}

/// The registry that the first pass leaves.
pub open spec fn registry_of(index: Index) -> Map<u64, Seq<char>> {
    registered_through(Map::empty(), index.documents@, index.documents@.len())
}

/// Whether the level of detail drops a definition of this kind and symbol.
pub open spec fn lod_drops(lod: LevelOfDetail, kind: ScipSymbolKind, symbol: Seq<char>) -> bool {
    match lod {
        LevelOfDetail::Low => kind == ScipSymbolKind::Variable || kind
            == ScipSymbolKind::Interface || kind == ScipSymbolKind::Module,
        LevelOfDetail::Medium => (kind == ScipSymbolKind::Variable && !symbol.contains('#')
            && !symbol.contains('.')) || contains_sub(symbol, "().("@),
        LevelOfDetail::High => false,
    }
}

/// Whether the occurrence becomes a node.
pub open spec fn keeps(kinds: Map<Seq<char>, i32>, lod: LevelOfDetail, o: Occurrence) -> bool {
    o.defines() && !lod_drops(lod, symbol_kind(raw_kind(kinds, o.symbol@), o.symbol@), o.symbol@)
}

/// Whether the enricher is consulted for a definition of this kind.
pub open spec fn enriched_kind(kind: ScipSymbolKind) -> bool {
    kind != ScipSymbolKind::File && kind != ScipSymbolKind::Module
}

/// Whether a definition of this kind opens a scope.
pub open spec fn scoped_kind(kind: ScipSymbolKind) -> bool {
    kind == ScipSymbolKind::Function || kind == ScipSymbolKind::Method || kind
        == ScipSymbolKind::Class
}

/// The anchor under `id`, if the registry holds one.
pub open spec fn found(reg: Map<u64, Seq<char>>, id: u64) -> Option<Seq<char>> {
    if reg.contains_key(id) {
        Some(reg[id])
    } else {
        None
    }
}

/// The parent of a definition. A file has none. For any other kind it is
/// the anchor of the parent that the symbol string names, or the file's
/// anchor where the string names none or the one it names is not
/// registered.
pub open spec fn parent_anchor(
    reg: Map<u64, Seq<char>>,
    file_id: u64,
    kind: ScipSymbolKind,
    symbol: Seq<char>,
) -> Option<Seq<char>> {
    if kind == ScipSymbolKind::File {
        None
    } else {
        match parent_raw(symbol) {
            Some(p) => if reg.contains_key(fingerprint_of(p)) {
                Some(reg[fingerprint_of(p)])
            } else {
                found(reg, file_id)
            },
            None => found(reg, file_id),
        }
    }
}

/// What the enricher reported for occurrence `i` of document `d`.
pub open spec fn enrichment_at(
    table: Seq<Vec<Option<EnrichmentResult>>>,
    d: int,
    i: int,
) -> Option<EnrichmentView> {
    if 0 <= d < table.len() && 0 <= i < table[d]@.len() {
        match table[d]@[i] {
            Some(e) => Some(e@),
            None => None,
        }
    } else {
        None
    }
}

/// The node of a kept definition.
pub open spec fn node_of(
    kinds: Map<Seq<char>, i32>,
    reg: Map<u64, Seq<char>>,
    file_id: u64,
    o: Occurrence,
    enrichment: Option<EnrichmentView>,
) -> NodeView {
    let kind = symbol_kind(raw_kind(kinds, o.symbol@), o.symbol@);
    let e = if enriched_kind(kind) {
        enrichment
    } else {
        None
    };
    NodeView {
        id: resolved(reg, fingerprint_of(o.symbol@), "gen"@),
        name: display_name(o.symbol@),
        kind,
        parent_id: parent_anchor(reg, file_id, kind, o.symbol@),
        documentation: match e {
            Some(x) => x.documentation,
            None => None,
        },
        signature: match e {
            Some(x) => x.signature,
            None => None,
        },
        logic: match e {
            Some(x) => if x.preconditions.len() > 0 {
                Some(x.preconditions)
            } else {
                None
            },
            None => None,
        },
    }
}

/// The nodes after the first `n` occurrences of document `d`.
pub open spec fn nodes_with(
    kinds: Map<Seq<char>, i32>,
    reg: Map<u64, Seq<char>>,
    lod: LevelOfDetail,
    table: Seq<Vec<Option<EnrichmentResult>>>,
    d: int,
    doc: Document,
    nodes: Seq<NodeView>,
    n: nat,
) -> Seq<NodeView>
    decreases n,
{
    if n == 0 {
        nodes
    } else {
        let prev = nodes_with(kinds, reg, lod, table, d, doc, nodes, (n - 1) as nat);
        let o = doc.occurrences@[n - 1];
        if keeps(kinds, lod, o) {
            prev.push(
                node_of(
                    kinds,
                    reg,
                    fingerprint_of(doc.relative_path@),
                    o,
                    enrichment_at(table, d, n - 1),
                ),
            )
        } else {
            prev
        }
    }
}

/// The scope of the whole file.
pub open spec fn file_scope(doc: Document) -> Scope {
    Scope { id: fingerprint_of(doc.relative_path@), start_line: 0, end_line: 100000 }
}

/// The scopes of a document after its first `n` occurrences: the file's,
/// then one for each kept function, method or class.
pub open spec fn scopes_with(
    kinds: Map<Seq<char>, i32>,
    lod: LevelOfDetail,
    doc: Document,
    n: nat,
) -> Seq<Scope>
    decreases n,
{
    if n == 0 {
        seq![file_scope(doc)]
    } else {
        let prev = scopes_with(kinds, lod, doc, (n - 1) as nat);
        let o = doc.occurrences@[n - 1];
        if keeps(kinds, lod, o) && scoped_kind(
            symbol_kind(raw_kind(kinds, o.symbol@), o.symbol@),
        ) {
            prev.push(
                Scope {
                    id: fingerprint_of(o.symbol@),
                    start_line: o.first_line(),
                    end_line: o.last_line(),
                },
            )
        } else {
            prev
        }
    }
}

/// The edge of a reference, if it gives one. Its source is the smallest
/// scope that holds the line, or the file. A reference to an unregistered
/// target gives none below high detail, nor does a reference whose source
/// and target resolve to the same anchor.
pub open spec fn reference_edge(
    reg: Map<u64, Seq<char>>,
    lod: LevelOfDetail,
    scopes: Seq<Scope>,
    file_id: u64,
    o: Occurrence,
) -> Option<EdgeView> {
    let source = match enclosing_scope(scopes, o.first_line()) {
        Some(id) => id,
        None => file_id,
    };
    let target = fingerprint_of(o.symbol@);
    let from = resolved(reg, source, "ctx"@);
    let to = resolved(reg, target, "ext"@);
    if !reg.contains_key(target) && lod != LevelOfDetail::High {
        None
    } else if from == to {
        None
    } else {
        Some(EdgeView { from, to, edge_type: EdgeType::Calls })
    }
}

/// The sorted edge set after the references among the first `n`
/// occurrences of a document.
pub open spec fn edges_with(
    reg: Map<u64, Seq<char>>,
    lod: LevelOfDetail,
    scopes: Seq<Scope>,
    doc: Document,
    edges: Seq<EdgeView>,
    n: nat,
) -> Seq<EdgeView>
    decreases n,
{
    if n == 0 {
        edges
    } else {
        let prev = edges_with(reg, lod, scopes, doc, edges, (n - 1) as nat);
        let o = doc.occurrences@[n - 1];
        if o.defines() {
            prev
        } else {
            match reference_edge(reg, lod, scopes, fingerprint_of(doc.relative_path@), o) {
                Some(e) => insert_edge(prev, e),
                None => prev,
            }
        }
    }
}

/// The nodes of the first `n` documents, in document order and then in
/// occurrence order.
pub open spec fn nodes_through(
    kinds: Map<Seq<char>, i32>,
    reg: Map<u64, Seq<char>>,
    lod: LevelOfDetail,
    table: Seq<Vec<Option<EnrichmentResult>>>,
    docs: Seq<Document>,
    n: nat,
) -> Seq<NodeView>
    decreases n,
{
    if n == 0 {
        Seq::empty()
    } else {
        nodes_with(
            kinds,
            reg,
            lod,
            table,
            n - 1,
            docs[n - 1],
            nodes_through(kinds, reg, lod, table, docs, (n - 1) as nat),
            docs[n - 1].occurrences@.len(),
        )
    }
}

/// The sorted edge set of the first `n` documents.
pub open spec fn edges_through(
    kinds: Map<Seq<char>, i32>,
    reg: Map<u64, Seq<char>>,
    lod: LevelOfDetail,
    docs: Seq<Document>,
    n: nat,
) -> Seq<EdgeView>
    decreases n,
{
    if n == 0 {
        Seq::empty()
    } else {
        edges_with(
            reg,
            lod,
            scopes_with(kinds, lod, docs[n - 1], docs[n - 1].occurrences@.len()),
            docs[n - 1],
            edges_through(kinds, reg, lod, docs, (n - 1) as nat),
            docs[n - 1].occurrences@.len(),
        )
    }
}

/// The graph of an index, given its kind table: the registry is that of the
/// first pass, the nodes stand in discovery order, the edges are sorted by
/// source, target and type and hold no edge twice.
pub open spec fn graph_with(
    kinds: Map<Seq<char>, i32>,
    index: Index,
    table: Seq<Vec<Option<EnrichmentResult>>>,
    lod: LevelOfDetail,
) -> GraphView {
    let reg = registry_of(index);
    GraphView {
        metadata: MetadataView { name: "ycg-v1.3"@, version: "1.3.0"@ },
        definitions: nodes_through(
            kinds,
            reg,
            lod,
            table,
            index.documents@,
            index.documents@.len(),
        ),
        references: edges_through(kinds, reg, lod, index.documents@, index.documents@.len()),
    }
}

/// The graph of an index.
pub open spec fn graph_of(
    index: Index,
    table: Seq<Vec<Option<EnrichmentResult>>>,
    lod: LevelOfDetail,
) -> GraphView {
    graph_with(kind_table(index), index, table, lod)
}

/// The edges of a document keep a sorted edge set sorted.
pub proof fn lemma_edges_with_sorted(
    reg: Map<u64, Seq<char>>,
    lod: LevelOfDetail,
    scopes: Seq<Scope>,
    doc: Document,
    edges: Seq<EdgeView>,
    n: nat,
)
    requires
        edges_sorted(edges),
    ensures
        edges_sorted(edges_with(reg, lod, scopes, doc, edges, n)),
    decreases n,
{
    if n > 0 {
        lemma_edges_with_sorted(reg, lod, scopes, doc, edges, (n - 1) as nat);
        let prev = edges_with(reg, lod, scopes, doc, edges, (n - 1) as nat);
        let o = doc.occurrences@[n - 1];
        if !o.defines() {
            match reference_edge(reg, lod, scopes, fingerprint_of(doc.relative_path@), o) {
                Some(e) => {
                    lemma_insert_edge(prev, e);
                },
                None => {},
            }
        }
    }
}

/// The edges of a graph are sorted by source, then target, then type, each
/// strictly before the next.
pub proof fn lemma_edges_through_sorted(
    kinds: Map<Seq<char>, i32>,
    reg: Map<u64, Seq<char>>,
    lod: LevelOfDetail,
    docs: Seq<Document>,
    n: nat,
)
    ensures
        edges_sorted(edges_through(kinds, reg, lod, docs, n)),
    decreases n,
{
    if n > 0 {
        lemma_edges_through_sorted(kinds, reg, lod, docs, (n - 1) as nat);
        lemma_edges_with_sorted(
            reg,
            lod,
            scopes_with(kinds, lod, docs[n - 1], docs[n - 1].occurrences@.len()),
            docs[n - 1],
            edges_through(kinds, reg, lod, docs, (n - 1) as nat),
            docs[n - 1].occurrences@.len(),
        );
    }
}

/// Whether occurrence `i` of the document is a reference that gives the
/// edge `x`.
pub open spec fn gives_edge(
    reg: Map<u64, Seq<char>>,
    lod: LevelOfDetail,
    scopes: Seq<Scope>,
    doc: Document,
    i: int,
    x: EdgeView,
) -> bool {
    0 <= i < doc.occurrences@.len() && !doc.occurrences@[i].defines() && reference_edge(
        reg,
        lod,
        scopes,
        fingerprint_of(doc.relative_path@),
        doc.occurrences@[i],
    ) == Some(x)
}

/// After the references among the first `n` occurrences of a document the
/// edge set holds what it held and the edges that those references give.
pub proof fn lemma_edges_with_members(
    reg: Map<u64, Seq<char>>,
    lod: LevelOfDetail,
    scopes: Seq<Scope>,
    doc: Document,
    edges: Seq<EdgeView>,
    n: nat,
    x: EdgeView,
)
    requires
        edges_sorted(edges),
        n <= doc.occurrences@.len(),
    ensures
        edges_with(reg, lod, scopes, doc, edges, n).contains(x) <==> (edges.contains(x)
            || exists|i: int| 0 <= i < n && #[trigger] gives_edge(reg, lod, scopes, doc, i, x)),
    decreases n,
{
    if n > 0 {
        lemma_edges_with_members(reg, lod, scopes, doc, edges, (n - 1) as nat, x);
        lemma_edges_with_sorted(reg, lod, scopes, doc, edges, (n - 1) as nat);
        let prev = edges_with(reg, lod, scopes, doc, edges, (n - 1) as nat);
        let o = doc.occurrences@[n - 1];
        if !o.defines() {
            match reference_edge(reg, lod, scopes, fingerprint_of(doc.relative_path@), o) {
                Some(e) => {
                    lemma_insert_edge(prev, e);
                },
                None => {},
            }
        }
        if exists|i: int| 0 <= i < n && #[trigger] gives_edge(reg, lod, scopes, doc, i, x) {
            let i = choose|i: int| 0 <= i < n && #[trigger] gives_edge(reg, lod, scopes, doc, i, x);
            if i < n - 1 {
                assert(0 <= i < n - 1 && gives_edge(reg, lod, scopes, doc, i, x));
            }
        }
        if exists|i: int| 0 <= i < n - 1 && #[trigger] gives_edge(reg, lod, scopes, doc, i, x) {
            let i = choose|i: int|
                0 <= i < n - 1 && #[trigger] gives_edge(reg, lod, scopes, doc, i, x);
            assert(0 <= i < n && gives_edge(reg, lod, scopes, doc, i, x));
        }
        if edges_with(reg, lod, scopes, doc, edges, n).contains(x) && !prev.contains(x) {
            assert(gives_edge(reg, lod, scopes, doc, n - 1, x));
        }
    }
}

/// The graph holds an edge exactly if a reference of one of the documents
/// gives it: equal edges count once, and no edge comes from elsewhere.
pub proof fn lemma_edges_through_members(
    kinds: Map<Seq<char>, i32>,
    reg: Map<u64, Seq<char>>,
    lod: LevelOfDetail,
    docs: Seq<Document>,
    n: nat,
    x: EdgeView,
)
    requires
        n <= docs.len(),
    ensures
        edges_through(kinds, reg, lod, docs, n).contains(x) <==> exists|d: int, i: int|
            0 <= d < n && #[trigger] gives_edge(
                reg,
                lod,
                scopes_with(kinds, lod, docs[d], docs[d].occurrences@.len()),
                docs[d],
                i,
                x,
            ),
    decreases n,
{
    if n > 0 {
        let doc = docs[n - 1];
        let scopes = scopes_with(kinds, lod, doc, doc.occurrences@.len());
        let prev = edges_through(kinds, reg, lod, docs, (n - 1) as nat);
        lemma_edges_through_members(kinds, reg, lod, docs, (n - 1) as nat, x);
        lemma_edges_through_sorted(kinds, reg, lod, docs, (n - 1) as nat);
        lemma_edges_with_members(reg, lod, scopes, doc, prev, doc.occurrences@.len(), x);
        if edges_through(kinds, reg, lod, docs, n).contains(x) {
            if prev.contains(x) {
                let (d, i) = choose|d: int, i: int|
                    0 <= d < n - 1 && #[trigger] gives_edge(
                        reg,
                        lod,
                        scopes_with(kinds, lod, docs[d], docs[d].occurrences@.len()),
                        docs[d],
                        i,
                        x,
                    );
                assert(0 <= d < n && gives_edge(
                    reg,
                    lod,
                    scopes_with(kinds, lod, docs[d], docs[d].occurrences@.len()),
                    docs[d],
                    i,
                    x,
                ));
            } else {
                let i = choose|i: int|
                    0 <= i < doc.occurrences@.len() && #[trigger] gives_edge(
                        reg,
                        lod,
                        scopes,
                        doc,
                        i,
                        x,
                    );
                assert(0 <= n - 1 < n && gives_edge(
                    reg,
                    lod,
                    scopes_with(kinds, lod, docs[n - 1], docs[n - 1].occurrences@.len()),
                    docs[n - 1],
                    i,
                    x,
                ));
            }
        }
        if exists|d: int, i: int|
            0 <= d < n && #[trigger] gives_edge(
                reg,
                lod,
                scopes_with(kinds, lod, docs[d], docs[d].occurrences@.len()),
                docs[d],
                i,
                x,
            ) {
            let (d, i) = choose|d: int, i: int|
                0 <= d < n && #[trigger] gives_edge(
                    reg,
                    lod,
                    scopes_with(kinds, lod, docs[d], docs[d].occurrences@.len()),
                    docs[d],
                    i,
                    x,
                );
            if d < n - 1 {
                assert(0 <= d < n - 1 && gives_edge(
                    reg,
                    lod,
                    scopes_with(kinds, lod, docs[d], docs[d].occurrences@.len()),
                    docs[d],
                    i,
                    x,
                ));
            } else {
                assert(0 <= i < doc.occurrences@.len() && gives_edge(reg, lod, scopes, doc, i, x));
            }
        }
    } else {
        assert(edges_through(kinds, reg, lod, docs, 0) =~= Seq::<EdgeView>::empty());
    }
}

/// Whether the edge is a call between two different anchors.
pub open spec fn plain_call(x: EdgeView) -> bool {
    x.from != x.to && x.edge_type == EdgeType::Calls
}

/// Whether every one of the edges is a call between two different
/// anchors.
pub open spec fn all_plain_calls(edges: Seq<EdgeView>) -> bool {
    forall|i: int| 0 <= i < edges.len() ==> plain_call(#[trigger] edges[i])
}

/// No edge of the graph runs from an anchor to itself, and every edge is a
/// call.
pub proof fn lemma_edges_plain_calls(
    kinds: Map<Seq<char>, i32>,
    reg: Map<u64, Seq<char>>,
    lod: LevelOfDetail,
    docs: Seq<Document>,
    n: nat,
)
    requires
        n <= docs.len(),
    ensures
        all_plain_calls(edges_through(kinds, reg, lod, docs, n)),
{
    let edges = edges_through(kinds, reg, lod, docs, n);
    assert forall|i: int| 0 <= i < edges.len() implies plain_call(#[trigger] edges[i]) by {
        let x = edges[i];
        assert(edges.contains(x));
        lemma_edges_through_members(kinds, reg, lod, docs, n, x);
        let (d, k) = choose|d: int, k: int|
            0 <= d < n && #[trigger] gives_edge(
                reg,
                lod,
                scopes_with(kinds, lod, docs[d], docs[d].occurrences@.len()),
                docs[d],
                k,
                x,
            );
    }
}

fn add_kinds(m: &mut StringHashMap<i32>, infos: &Vec<SymbolInformation>)
    ensures
        final(m)@ == kinds_with(old(m)@, infos@, infos@.len()),
{
    let mut i: usize = 0;
    while i < infos.len()
        invariant
            i <= infos.len(),
            m@ == kinds_with(old(m)@, infos@, i as nat),
        decreases infos.len() - i,
    {
        m.insert(infos[i].symbol.clone(), infos[i].kind);
        i += 1;
    }
}

/// Gathers the kind number of every symbol that the index names.
pub fn build_kind_table(index: &Index) -> (m: StringHashMap<i32>)
    ensures
        m@ == kind_table(*index),
{
    let mut m: StringHashMap<i32> = StringHashMap::new();
    add_kinds(&mut m, &index.external_symbols);
    let mut d: usize = 0;
    while d < index.documents.len()
        invariant
            d <= index.documents.len(),
            m@ == kinds_through(
                kinds_with(Map::empty(), index.external_symbols@, index.external_symbols@.len()),
                index.documents@,
                d as nat,
            ),
        decreases index.documents.len() - d,
    {
        add_kinds(&mut m, &index.documents[d].symbols);
        d += 1;
    }
    m
}

/// The first pass: an anchor for every file and every definition.
pub fn register_index(index: &Index) -> (reg: AnchorRegistry)
    ensures
        reg@ == registry_of(*index),
{
    let mut reg = AnchorRegistry::new();
    let mut d: usize = 0;
    while d < index.documents.len()
        invariant
            d <= index.documents.len(),
            reg@ == registered_through(Map::empty(), index.documents@, d as nat),
        decreases index.documents.len() - d,
    {
        let doc = &index.documents[d];
        let _ = reg.register_file(doc.relative_path.as_str());
        let ghost start = reg@;
        let mut i: usize = 0;
        while i < doc.occurrences.len()
            invariant
                i <= doc.occurrences.len(),
                reg@ == registered_with(start, doc.occurrences@, i as nat),
            decreases doc.occurrences.len() - i,
        {
            if doc.occurrences[i].is_definition() {
                let _ = reg.register(doc.occurrences[i].symbol.as_str());
            }
            i += 1;
        }
        d += 1;
    }
    reg
}

/// The kind of the symbol of an occurrence.
pub fn kind_of(kinds: &StringHashMap<i32>, symbol: &str) -> (r: ScipSymbolKind)
    ensures
        r == symbol_kind(raw_kind(kinds@, symbol@), symbol@),
{
    let raw: i32 = match kinds.get(symbol) {
        Some(k) => *k,
        None => 0,
    };
    if raw == 0 {
        infer_kind_from_uri(symbol)
    } else {
        map_kind(raw)
    }
}

/// Whether the level of detail drops a definition of this kind and symbol.
pub fn should_skip(lod: LevelOfDetail, kind: ScipSymbolKind, symbol: &str) -> (r: bool)
    ensures
        r == lod_drops(lod, kind, symbol@),
{
    match lod {
        LevelOfDetail::Low => kind == ScipSymbolKind::Variable || kind
            == ScipSymbolKind::Interface || kind == ScipSymbolKind::Module,
        LevelOfDetail::Medium => {
            let v = chars_of(symbol);
            let is_local_var = kind == ScipSymbolKind::Variable && !has_char(&v, '#') && !has_char(
                &v,
                '.',
            );
            let is_param = contains_lit(&v, "().(");
            is_local_var || is_param
        },
        LevelOfDetail::High => false,
    }
}

/// Whether the enricher is to be consulted for an occurrence: it is a
/// definition, the level of detail keeps it, and it is no file or module.
pub fn needs_enrichment(kinds: &StringHashMap<i32>, lod: LevelOfDetail, o: &Occurrence) -> (r:
    bool)
    ensures
        r == (keeps(kinds@, lod, *o) && enriched_kind(
            symbol_kind(raw_kind(kinds@, o.symbol@), o.symbol@),
        )),
{
    if !o.is_definition() {
        return false;
    }
    let kind = kind_of(kinds, o.symbol.as_str());
    if should_skip(lod, kind, o.symbol.as_str()) {
        return false;
    }
    kind != ScipSymbolKind::File && kind != ScipSymbolKind::Module
}

/// The fingerprint of the parent that a symbol string names.
pub fn extract_parent_id(symbol: &str) -> (r: Option<u64>)
    ensures
        r == (match parent_raw(symbol@) {
            Some(p) => Some(fingerprint_of(p)),
            None => None,
        }),
{
    match extract_parent_raw(symbol) {
        Some(p) => Some(fingerprint(p.as_str())),
        None => None,
    }
}

fn find_parent_anchor(reg: &AnchorRegistry, file_id: u64, kind: ScipSymbolKind, symbol: &str) -> (r:
    Option<String>)
    ensures
        crate::model::opt_text(r) == parent_anchor(reg@, file_id, kind, symbol@),
{
    if kind == ScipSymbolKind::File {
        return None;
    }
    match extract_parent_id(symbol) {
        Some(pid) => {
            match reg.lookup(pid) {
                Some(a) => Some(a),
                None => reg.lookup(file_id),
            }
        },
        None => reg.lookup(file_id),
    }
}

fn lookup_enrichment(table: &Vec<Vec<Option<EnrichmentResult>>>, d: usize, i: usize) -> (r: Option<
    EnrichmentResult,
>)
    ensures
        match r {
            Some(e) => Some(e@) == enrichment_at(table@, d as int, i as int),
            None => enrichment_at(table@, d as int, i as int).is_none(),
        },
{
    if d < table.len() && i < table[d].len() {
        match &table[d][i] {
            Some(e) => Some(e.copy()),
            None => None,
        }
    } else {
        None
    }
}

fn make_node(
    kinds: &StringHashMap<i32>,
    reg: &AnchorRegistry,
    file_id: u64,
    o: &Occurrence,
    enrichment: Option<EnrichmentResult>,
) -> (r: SymbolNode)
    ensures
        r@ == node_of(
            kinds@,
            reg@,
            file_id,
            *o,
            match enrichment {
                Some(e) => Some(e@),
                None => None,
            },
        ),
{
    let symbol = o.symbol.as_str();
    let kind = kind_of(kinds, symbol);
    let name = extract_name_from_uri(symbol);
    let parent = find_parent_anchor(reg, file_id, kind, symbol);
    let id = reg.resolve(fingerprint(symbol), "gen");
    let mut signature: Option<String> = None;
    let mut documentation: Option<String> = None;
    let mut logic: Option<LogicMetadata> = None;
    if kind != ScipSymbolKind::File && kind != ScipSymbolKind::Module {
        match enrichment {
            Some(res) => {
                if res.preconditions.len() > 0 {
                    logic = Some(LogicMetadata { preconditions: res.preconditions });
                }
                signature = res.signature;
                documentation = res.documentation;
            },
            None => {},
        }
    }
    SymbolNode { id, name, kind, parent_id: parent, documentation, signature, logic }
}

/// The definitions of one document: its nodes, added to `nodes`, and its
/// scopes.
fn collect_definitions(
    kinds: &StringHashMap<i32>,
    reg: &AnchorRegistry,
    lod: LevelOfDetail,
    table: &Vec<Vec<Option<EnrichmentResult>>>,
    d: usize,
    doc: &Document,
    nodes: &mut Vec<SymbolNode>,
) -> (scopes: Vec<Scope>)
    ensures
        node_views(final(nodes)@) == nodes_with(
            kinds@,
            reg@,
            lod,
            table@,
            d as int,
            *doc,
            node_views(old(nodes)@),
            doc.occurrences@.len(),
        ),
        scopes@ == scopes_with(kinds@, lod, *doc, doc.occurrences@.len()),
{
    let file_id = fingerprint(doc.relative_path.as_str());
    let mut scopes: Vec<Scope> = Vec::new();
    scopes.push(Scope { id: file_id, start_line: 0, end_line: 100000 });
    let mut i: usize = 0;
    while i < doc.occurrences.len()
        invariant
            i <= doc.occurrences.len(),
            file_id == fingerprint_of(doc.relative_path@),
            node_views(nodes@) == nodes_with(
                kinds@,
                reg@,
                lod,
                table@,
                d as int,
                *doc,
                node_views(old(nodes)@),
                i as nat,
            ),
            scopes@ == scopes_with(kinds@, lod, *doc, i as nat),
        decreases doc.occurrences.len() - i,
    {
        let o = &doc.occurrences[i];
        if o.is_definition() {
            let kind = kind_of(kinds, o.symbol.as_str());
            if !should_skip(lod, kind, o.symbol.as_str()) {
                let enrichment = lookup_enrichment(table, d, i);
                let node = make_node(kinds, reg, file_id, o, enrichment);
                proof {
                    lemma_node_views_push(nodes@, node);
                }
                nodes.push(node);
                if kind == ScipSymbolKind::Function || kind == ScipSymbolKind::Method || kind
                    == ScipSymbolKind::Class {
                    scopes.push(
                        Scope {
                            id: fingerprint(o.symbol.as_str()),
                            start_line: o.start_line(),
                            end_line: o.end_line(),
                        },
                    );
                }
            }
        }
        i += 1;
    }
    scopes
}

/// The edge of one reference, if it gives one.
fn make_edge(
    reg: &AnchorRegistry,
    lod: LevelOfDetail,
    scopes: &Vec<Scope>,
    file_id: u64,
    o: &Occurrence,
) -> (r: Option<ReferenceEdge>)
    ensures
        match r {
            Some(e) => Some(e@) == reference_edge(reg@, lod, scopes@, file_id, *o),
            None => reference_edge(reg@, lod, scopes@, file_id, *o).is_none(),
        },
{
    let source = match find_enclosing_scope(scopes, o.start_line()) {
        Some(id) => id,
        None => file_id,
    };
    let target = fingerprint(o.symbol.as_str());
    if !reg.contains(target) && lod != LevelOfDetail::High {
        return None;
    }
    let from = reg.resolve(source, "ctx");
    let to = reg.resolve(target, "ext");
    if crate::ordering::string_eq(from.as_str(), to.as_str()) {
        return None;
    }
    Some(ReferenceEdge { from, to, edge_type: EdgeType::Calls })
}

/// The references of one document, added to the sorted edge set.
fn collect_references(
    reg: &AnchorRegistry,
    lod: LevelOfDetail,
    scopes: &Vec<Scope>,
    doc: &Document,
    edges: &mut Vec<ReferenceEdge>,
)
    ensures
        edge_views(final(edges)@) == edges_with(
            reg@,
            lod,
            scopes@,
            *doc,
            edge_views(old(edges)@),
            doc.occurrences@.len(),
        ),
{
    let file_id = fingerprint(doc.relative_path.as_str());
    let mut i: usize = 0;
    while i < doc.occurrences.len()
        invariant
            i <= doc.occurrences.len(),
            file_id == fingerprint_of(doc.relative_path@),
            edge_views(edges@) == edges_with(
                reg@,
                lod,
                scopes@,
                *doc,
                edge_views(old(edges)@),
                i as nat,
            ),
        decreases doc.occurrences.len() - i,
    {
        let o = &doc.occurrences[i];
        if !o.is_definition() {
            match make_edge(reg, lod, scopes, file_id, o) {
                Some(e) => {
                    add_edge(edges, e);
                },
                None => {},
            }
        }
        i += 1;
    }
}

/// Builds the graph from the index and its kind table. `enrichments` holds,
/// for occurrence `i` of document `d`, at `[d][i]`, what the enricher
/// reported for it; what is missing counts as nothing reported.
pub fn convert_with_two_passes(
    index: &Index,
    kinds: &StringHashMap<i32>,
    enrichments: &Vec<Vec<Option<EnrichmentResult>>>,
    lod: LevelOfDetail,
) -> (g: YcgGraph)
    ensures
        g@ == graph_with(kinds@, *index, enrichments@, lod),
        edges_sorted(g@.references),
        all_plain_calls(g@.references),
{
    let reg = register_index(index);
    let mut nodes: Vec<SymbolNode> = Vec::new();
    let mut edges: Vec<ReferenceEdge> = Vec::new();
    let mut d: usize = 0;
    assert(node_views(nodes@) =~= Seq::<NodeView>::empty());
    assert(edge_views(edges@) =~= Seq::<EdgeView>::empty());
    while d < index.documents.len()
        invariant
            d <= index.documents.len(),
            reg@ == registry_of(*index),
            node_views(nodes@) == nodes_through(
                kinds@,
                reg@,
                lod,
                enrichments@,
                index.documents@,
                d as nat,
            ),
            edge_views(edges@) == edges_through(kinds@, reg@, lod, index.documents@, d as nat),
        decreases index.documents.len() - d,
    {
        let doc = &index.documents[d];
        let scopes = collect_definitions(kinds, &reg, lod, enrichments, d, doc, &mut nodes);
        collect_references(&reg, lod, &scopes, doc, &mut edges);
        d += 1;
    }
    proof {
        lemma_edges_through_sorted(
            kinds@,
            reg@,
            lod,
            index.documents@,
            index.documents@.len(),
        );
        lemma_edges_plain_calls(kinds@, reg@, lod, index.documents@, index.documents@.len());
    }
    YcgGraph {
        metadata: ProjectMetadata { name: "ycg-v1.3".to_string(), version: "1.3.0".to_string() },
        definitions: nodes,
        references: edges,
    }
}

/// Builds the graph of a decoded index at the given level of detail.
pub fn convert_scip_to_ycg(
    index: &Index,
    enrichments: &Vec<Vec<Option<EnrichmentResult>>>,
    lod: LevelOfDetail,
) -> (g: YcgGraph)
    ensures
        g@ == graph_of(*index, enrichments@, lod),
        edges_sorted(g@.references),
        all_plain_calls(g@.references),
{
    let kinds = build_kind_table(index);
    convert_with_two_passes(index, &kinds, enrichments, lod)
}

/// Two conversions of one index, with the same enrichments and at the same
/// level of detail, give the same graph.
pub proof fn lemma_conversion_deterministic(
    a: YcgGraph,
    b: YcgGraph,
    index: Index,
    table: Seq<Vec<Option<EnrichmentResult>>>,
    lod: LevelOfDetail,
)
    requires
        a@ == graph_of(index, table, lod),
        b@ == graph_of(index, table, lod),
    ensures
        a@ == b@,
{
}

} // verus!
