//! The reshaping of the flat graph into its adjacency form.

use vstd::prelude::*;
use crate::adjacency::{adjacency_of, all_targets_sorted, entries_sorted, AdjacencyGraph};
use crate::adjacency_laws::lemma_adjacency_unordered;
use crate::model::{OptimizedView, YcgGraph, YcgGraphOptimized};

verus! {

/// The adjacency form of a graph: the same metadata and definitions, the
/// edges grouped by source and by type.
pub open spec fn optimized(g: crate::model::GraphView) -> OptimizedView {
    OptimizedView {
        metadata: g.metadata,
        definitions: g.definitions,
        adjacency: adjacency_of(g.references, g.references.len()),
    }
}

/// Groups the edges of `graph` by source and by type, each list of targets
/// sorted.
pub fn optimize_graph(graph: YcgGraph) -> (r: YcgGraphOptimized)
    ensures
        r@ == optimized(graph@),
        entries_sorted(r@.adjacency),
        all_targets_sorted(r@.adjacency),
{
    let adjacency = AdjacencyGraph::from_edges(&graph.references);
    YcgGraphOptimized { metadata: graph.metadata, definitions: graph.definitions, adjacency }
}

/// Graphs with the same metadata, definitions and edges have the same
/// adjacency form.
pub proof fn lemma_optimize_deterministic(a: YcgGraph, b: YcgGraph)
    requires
        a@ == b@,
    ensures
        optimized(a@) == optimized(b@),
{
}

/// The adjacency form does not depend on the order of the edges: graphs
/// with the same metadata and definitions whose edge lists hold the same
/// edges, each as often in one as in the other, have the same adjacency
/// form.
pub proof fn lemma_optimize_unordered(a: crate::model::GraphView, b: crate::model::GraphView)
    requires
        a.metadata == b.metadata,
        a.definitions == b.definitions,
        a.references.to_multiset() == b.references.to_multiset(),
    ensures
        optimized(a) == optimized(b),
{
    lemma_adjacency_unordered(a.references, b.references);
}

} // verus!
