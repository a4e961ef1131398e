//! The pipe-delimited encoding at three levels of granularity:
//! `id|name|kind`; `id|signature|kind`; `id|signature|kind|logic:steps`.

use vstd::hash_map::StringHashMap;
use vstd::prelude::*;
use crate::adhoc_format::{
    escape_pipes, escaped, join_three, kind_name, kind_str, separator_count, three_fields,
};
use crate::adjacency::{adjacency_of, all_targets_sorted, entries_sorted, AdjacencyGraph};
use crate::ast_cache::{accessed, AstCache, AstCacheView};
use crate::logic_extractor::LogicExtractor;
use crate::model::{
    lemma_texts_push, node_views, texts, AdHocGranularity, AdHocView, NodeView, ScipSymbolKind,
    SymbolNode, YcgGraph, YcgGraphAdHoc,
};
use crate::signature_extractor::{node_signature, SignatureExtractor};
use crate::text::{append_chars, chars_of, string_of};

verus! {

/// Source texts by key.
pub struct SourceMap {
    map: StringHashMap<String>,
}

impl View for SourceMap {
    type V = Map<Seq<char>, Seq<char>>;

    closed spec fn view(&self) -> Map<Seq<char>, Seq<char>> {
        Map::new(|k: Seq<char>| self.map@.contains_key(k), |k: Seq<char>| self.map@[k]@)
    }
}

impl SourceMap {
    pub fn new() -> (r: Self)
        ensures
            r@ == Map::<Seq<char>, Seq<char>>::empty(),
    {
        let r = SourceMap { map: StringHashMap::new() };
        assert(r@ =~= Map::<Seq<char>, Seq<char>>::empty());
        r
    }

    pub fn insert(&mut self, key: String, source: String)
        ensures
            final(self)@ == old(self)@.insert(key@, source@),
    {
        self.map.insert(key, source);
        assert(self@ =~= old(self)@.insert(key@, source@));
    }

    /// The source under `key`.
    pub fn get(&self, key: &str) -> (r: Option<&String>)
        ensures
            match r {
                Some(s) => self@.contains_key(key@) && s@ == self@[key@],
                None => !self@.contains_key(key@),
            },
    {
        self.map.get(key)
    }
}

/// The second field above level 0: the compact signature where the node
/// carries a signature, else the name.
pub open spec fn signature_or_name(node: NodeView) -> Seq<char> {
    match node_signature(node) {
        Some(sig) => sig,
        None => node.name,
    }
}

/// The encoding with the signature in the second field.
pub open spec fn with_signature(node: NodeView) -> Seq<char> {
    three_fields(escaped(node.id), escaped(signature_or_name(node)), kind_name(node.kind))
}

/// The encoding with the signature and, where there is one, the logic as a
/// fourth field.
pub open spec fn with_logic(node: NodeView, logic: Option<Seq<char>>) -> Seq<char> {
    match logic {
        Some(l) => with_signature(node) + seq!['|'] + escaped(l),
        None => with_signature(node),
    }
}

/// The encoding of a node at a level, given the logic extracted for it.
pub open spec fn encoded(level: AdHocGranularity, node: NodeView, logic: Option<Seq<char>>) -> Seq<
    char,
> {
    match level {
        AdHocGranularity::Default => crate::adhoc_format::serialized(node),
        AdHocGranularity::InlineSignatures => with_signature(node),
        AdHocGranularity::InlineLogic => with_logic(node, logic),
    }
}

/// The encodings of nodes for which no logic is extracted.
pub open spec fn encoded_all(level: AdHocGranularity, nodes: Seq<NodeView>) -> Seq<Seq<char>> {
    nodes.map_values(|n: NodeView| encoded(level, n, None))
}

/// The source of a node: what the map holds under the node's id, else the
/// empty text.
pub open spec fn source_of(sources: Map<Seq<char>, Seq<char>>, node: NodeView) -> Seq<char> {
    if sources.contains_key(node.id) {
        sources[node.id]
    } else {
        Seq::empty()
    }
}

/// The cache after the first `n` nodes were written: above level 0 every
/// node with a source that is not empty counts as one access under the
/// node's id.
pub open spec fn cache_after(
    cache: AstCacheView,
    level: AdHocGranularity,
    sources: Map<Seq<char>, Seq<char>>,
    nodes: Seq<NodeView>,
    n: nat,
) -> AstCacheView
    decreases n,
{
    if n == 0 {
        cache
    } else {
        let prev = cache_after(cache, level, sources, nodes, (n - 1) as nat);
        let src = source_of(sources, nodes[n - 1]);
        if src.len() > 0 && level != AdHocGranularity::Default {
            accessed(prev, nodes[n - 1].id, src)
        } else {
            prev
        }
    }
}

/// Writes nodes at one level of granularity.
pub struct AdHocSerializerV2 {
    granularity: AdHocGranularity,
}

impl AdHocSerializerV2 {
    /// The level at which the serializer writes.
    pub closed spec fn level(&self) -> AdHocGranularity {
        self.granularity
    }

    pub fn new(granularity: AdHocGranularity) -> (r: Self)
        ensures
            r.level() == granularity,
    {
        Self { granularity }
    }

    /// Writes a node at the serializer's level. No logic is extracted, so at
    /// the third level too a node has three fields.
    pub fn serialize_node(&self, node: &SymbolNode, source: &str) -> (r: String)
        ensures
            r@ == encoded(self.level(), node@, None),
    {
        match self.granularity {
            AdHocGranularity::Default => self.serialize_default(node),
            AdHocGranularity::InlineSignatures => self.serialize_with_signature(node, source),
            AdHocGranularity::InlineLogic => self.serialize_with_logic(node, source),
        }
    }

    /// Level 0: `id|name|kind`.
    pub fn serialize_default(&self, node: &SymbolNode) -> (r: String)
        ensures
            r@ == crate::adhoc_format::serialized(node@),
    {
        let id = Self::escape_pipes(node.id.as_str());
        let name = Self::escape_pipes(node.name.as_str());
        join_three(id.as_str(), name.as_str(), Self::kind_to_string(&node.kind))
    }

    /// Level 1: `id|signature|kind`, the name in place of the signature
    /// where the node carries none.
    pub fn serialize_with_signature(&self, node: &SymbolNode, _source: &str) -> (r: String)
        ensures
            r@ == with_signature(node@),
    {
        let id = Self::escape_pipes(node.id.as_str());
        let name_or_sig = match SignatureExtractor::extract_signature(node) {
            Some(sig) => Self::escape_pipes(sig.as_str()),
            None => Self::escape_pipes(node.name.as_str()),
        };
        join_three(id.as_str(), name_or_sig.as_str(), Self::kind_to_string(&node.kind))
    }

    /// Level 2 with what the extractor gives, which is nothing.
    pub fn serialize_with_logic(&self, node: &SymbolNode, source: &str) -> (r: String)
        ensures
            r@ == with_logic(node@, None),
    {
        let logic = LogicExtractor::extract_logic(node, source);
        self.serialize_with_logic_field(node, logic)
    }

    /// Level 2, given the logic extracted for the node:
    /// `id|signature|kind|logic` where there is logic, else the three
    /// fields of level 1.
    pub fn serialize_with_logic_field(&self, node: &SymbolNode, logic: Option<String>) -> (r: String)
        ensures
            r@ == with_logic(
                node@,
                match logic {
                    Some(l) => Some(l@),
                    None => None,
                },
            ),
    {
        let base = self.serialize_with_signature(node, "");
        match logic {
            Some(l) => {
                let mut out = chars_of(base.as_str());
                out.push('|');
                append_chars(&mut out, &chars_of(Self::escape_pipes(l.as_str()).as_str()));
                string_of(&out)
            },
            None => base,
        }
    }

    /// Writes a graph at the serializer's level.
    pub fn serialize_graph(&self, graph: &YcgGraph, sources: &SourceMap) -> (r: YcgGraphAdHoc)
        ensures
            r@ == (AdHocView {
                metadata: graph@.metadata,
                definitions: encoded_all(self.level(), graph@.definitions),
                adjacency: adjacency_of(graph@.references, graph@.references.len()),
            }),
            entries_sorted(r@.adjacency),
            all_targets_sorted(r@.adjacency),
    {
        let mut cache = AstCache::new();
        self.serialize_graph_with_cache(graph, sources, &mut cache)
    }

    /// Writes a graph at the serializer's level: each definition encoded,
    /// the edges in adjacency form, the same at every level. Above level 0
    /// each definition with a source is looked up in the cache.
    pub fn serialize_graph_with_cache(
        &self,
        graph: &YcgGraph,
        sources: &SourceMap,
        cache: &mut AstCache,
    ) -> (r: YcgGraphAdHoc)
        ensures
            r@ == (AdHocView {
                metadata: graph@.metadata,
                definitions: encoded_all(self.level(), graph@.definitions),
                adjacency: adjacency_of(graph@.references, graph@.references.len()),
            }),
            entries_sorted(r@.adjacency),
            all_targets_sorted(r@.adjacency),
            final(cache)@ == cache_after(
                old(cache)@,
                self.level(),
                sources@,
                graph@.definitions,
                graph@.definitions.len(),
            ),
    {
        let mut definitions: Vec<String> = Vec::new();
        let mut i: usize = 0;
        let ghost nodes = node_views(graph.definitions@);
        assert(texts(definitions@) =~= encoded_all(self.level(), nodes.take(0)));
        while i < graph.definitions.len()
            invariant
                i <= graph.definitions.len(),
                nodes == node_views(graph.definitions@),
                texts(definitions@) == encoded_all(self.level(), nodes.take(i as int)),
                cache@ == cache_after(old(cache)@, self.level(), sources@, nodes, i as nat),
            decreases graph.definitions.len() - i,
        {
            let node = &graph.definitions[i];
            assert(nodes[i as int] == node@);
            let empty = String::new();
            let source: &String = match sources.get(node.id.as_str()) {
                Some(s) => s,
                None => &empty,
            };
            assert(source@ == source_of(sources@, node@));
            let level_above_default = match self.granularity {
                AdHocGranularity::Default => false,
                _ => true,
            };
            if source.as_str().unicode_len() > 0 && level_above_default {
                let _ = cache.get_or_parse(node.id.as_str(), source.as_str());
            }
            let s = self.serialize_node(node, source.as_str());
            proof {
                lemma_texts_push(definitions@, s);
                assert(nodes.take(i + 1) == nodes.take(i as int).push(nodes[i as int]));
                assert(encoded_all(self.level(), nodes.take(i as int).push(nodes[i as int]))
                    =~= encoded_all(self.level(), nodes.take(i as int)).push(
                    encoded(self.level(), nodes[i as int], None),
                ));
            }
            definitions.push(s);
            i += 1;
        }
        assert(nodes.take(nodes.len() as int) == nodes);
        let adjacency = AdjacencyGraph::from_edges(&graph.references);
        YcgGraphAdHoc { metadata: graph.metadata.copy(), definitions, adjacency }
    }

    /// Writes each `|` as `\|`.
    pub fn escape_pipes(s: &str) -> (r: String)
        ensures
            r@ == escaped(s@),
    {
        escape_pipes(s)
    }

    /// The name of a kind in the encoding.
    pub fn kind_to_string(kind: &ScipSymbolKind) -> (r: &'static str)
        ensures
            r@ == kind_name(*kind),
    {
        kind_str(kind)
    }
}


/// The text of the second field of a node at a level.
pub open spec fn second_field(level: AdHocGranularity, node: NodeView) -> Seq<char> {
    match level {
        AdHocGranularity::Default => node.name,
        _ => signature_or_name(node),
    }
}

/// An encoded definition holds exactly two separators at the first two
/// levels; at the third it holds two where it has no logic and three where
/// it has. This holds of every node whose id and whose second field do not
/// end in a backslash.
pub proof fn lemma_field_count_invariant(
    level: AdHocGranularity,
    node: NodeView,
    logic: Option<Seq<char>>,
)
    requires
        !crate::adhoc_format::ends_in_backslash(node.id),
        !crate::adhoc_format::ends_in_backslash(second_field(level, node)),
    ensures
        separator_count(encoded(level, node, logic)) == (if level == AdHocGranularity::InlineLogic
            && logic.is_some() {
            3nat
        } else {
            2nat
        }),
{
    crate::adhoc_format::lemma_kind_round_trip(node.kind);
    crate::adhoc_format::lemma_three_fields(
        node.id,
        second_field(level, node),
        kind_name(node.kind),
    );
    if level == AdHocGranularity::InlineLogic && logic.is_some() {
        let l = logic.unwrap();
        let a = with_signature(node);
        let pipe = seq!['|'];
        let b = pipe + escaped(l);
        crate::adhoc_format::lemma_escaped(l);
        assert(separator_count(pipe.drop_last()) == 0);
        assert(separator_count(pipe) == 1);
        crate::adhoc_format::lemma_separator_count_concat(pipe, escaped(l));
        assert(a.last() == kind_name(node.kind).last());
        crate::adhoc_format::lemma_separator_count_concat(a, b);
        assert(a + b =~= a + pipe + escaped(l));
    }
}

} // verus!
