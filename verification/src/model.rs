//! The graph data model: symbol nodes, reference edges, the flat graph, the
//! adjacency form and the pipe-delimited form, each with its mathematical
//! view.

use vstd::prelude::*;
use crate::adjacency::{AdjacencyGraph, EntryView};

verus! {

/// What a reference edge expresses.
#[derive(Debug, Clone, Copy, PartialEq, Eq, Hash, PartialOrd, Ord, Structural)]
pub enum EdgeType {
    Calls,
    References,
    Imports,
}

/// The kind of a symbol.
#[derive(Debug, Clone, Copy, PartialEq, Eq, Structural)]
pub enum ScipSymbolKind {
    File,
    Module,
    Class,
    Method,
    Function,
    Variable,
    Interface,
}

/// The verbosity tier of the pipe-delimited encoding.
#[derive(Debug, Clone, Copy, PartialEq, Eq, Structural)]
pub enum AdHocGranularity {
    /// `id|name|kind`
    Default,
    /// `id|signature|kind`
    InlineSignatures,
    /// `id|signature|kind|logic:steps`
    InlineLogic,
}

impl Default for AdHocGranularity {
    fn default() -> (r: Self)
        ensures
            r == AdHocGranularity::Default,
    {
        AdHocGranularity::Default
    }
}

impl AdHocGranularity {
    /// The name of the level as it is written in messages.
    pub open spec fn name(self) -> Seq<char> {
        match self {
            AdHocGranularity::Default => "default"@,
            AdHocGranularity::InlineSignatures => "signatures"@,
            AdHocGranularity::InlineLogic => "logic"@,
        }
    }

    pub fn to_str(&self) -> (r: &'static str)
        ensures
            r@ == self.name(),
    {
        match self {
            AdHocGranularity::Default => "default",
            AdHocGranularity::InlineSignatures => "signatures",
            AdHocGranularity::InlineLogic => "logic",
        }
    }
}

/// Output format options.
#[derive(Debug, Clone, Copy, PartialEq, Eq, Structural)]
pub enum OutputFormat {
    Yaml,
    AdHoc,
}

impl Default for OutputFormat {
    fn default() -> (r: Self)
        ensures
            r == OutputFormat::Yaml,
    {
        OutputFormat::Yaml
    }
}

/// The output settings of a configuration file.
#[derive(Debug, Clone)]
pub struct OutputConfig {
    pub format: Option<String>,
    pub compact: Option<bool>,
    pub ignore_framework_noise: Option<bool>,
}

impl Default for OutputConfig {
    fn default() -> (r: Self)
        ensures
            r.format.is_none(),
            r.compact.is_none(),
            r.ignore_framework_noise.is_none(),
    {
        OutputConfig { format: None, compact: None, ignore_framework_noise: None }
    }
}

/// The ignore settings of a configuration file.
#[derive(Debug, Clone)]
pub struct IgnoreConfig {
    pub use_gitignore: Option<bool>,
    pub custom_patterns: Option<Vec<String>>,
}

impl Default for IgnoreConfig {
    fn default() -> (r: Self)
        ensures
            r.use_gitignore.is_none(),
            r.custom_patterns.is_none(),
    {
        IgnoreConfig { use_gitignore: None, custom_patterns: None }
    }
}

/// A configuration file.
#[derive(Debug, Clone)]
pub struct YcgConfigFile {
    pub output: OutputConfig,
    pub ignore: IgnoreConfig,
    /// The include patterns.
    pub includes: Vec<String>,
}

/// Which files of the project are read.
#[derive(Debug, Clone)]
pub struct FileFilterConfig {
    pub include_patterns: Vec<String>,
    pub exclude_patterns: Vec<String>,
    pub use_gitignore: bool,
}

impl Default for FileFilterConfig {
    fn default() -> (r: Self)
        ensures
            r.include_patterns@.len() == 0,
            r.exclude_patterns@.len() == 0,
            !r.use_gitignore,
    {
        FileFilterConfig {
            include_patterns: Vec::new(),
            exclude_patterns: Vec::new(),
            use_gitignore: false,
        }
    }
}

#[derive(Debug, Clone)]
pub struct ProjectMetadata {
    pub name: String,
    pub version: String,
}

impl Default for ProjectMetadata {
    fn default() -> (r: Self)
        ensures
            r@.name == Seq::<char>::empty(),
            r@.version == Seq::<char>::empty(),
    {
        ProjectMetadata { name: String::new(), version: String::new() }
    }
}

#[derive(Debug, Clone)]
pub struct LogicMetadata {
    pub preconditions: Vec<String>,
}

#[derive(Debug, Clone)]
pub struct SymbolNode {
    pub id: String,
    pub name: String,
    pub kind: ScipSymbolKind,
    pub parent_id: Option<String>,
    pub documentation: Option<String>,
    pub signature: Option<String>,
    pub logic: Option<LogicMetadata>,
}

#[derive(Debug, Clone, PartialEq, Eq, Hash, PartialOrd, Ord)]
pub struct ReferenceEdge {
    pub from: String,
    pub to: String,
    pub edge_type: EdgeType,
}

/// The flat graph: definitions in discovery order and a list of edges.
#[derive(Debug)]
pub struct YcgGraph {
    pub metadata: ProjectMetadata,
    pub definitions: Vec<SymbolNode>,
    pub references: Vec<ReferenceEdge>,
}

/// The graph with its edges in adjacency form.
#[derive(Debug)]
pub struct YcgGraphOptimized {
    pub metadata: ProjectMetadata,
    pub definitions: Vec<SymbolNode>,
    pub adjacency: AdjacencyGraph,
}

/// The graph with each definition as one pipe-delimited string and its
/// edges in adjacency form.
#[derive(Debug)]
pub struct YcgGraphAdHoc {
    pub metadata: ProjectMetadata,
    pub definitions: Vec<String>,
    pub adjacency: AdjacencyGraph,
}

/// The texts of a sequence of strings.
pub open spec fn texts(v: Seq<String>) -> Seq<Seq<char>> {
    v.map_values(|s: String| s@)
}

/// The text of an optional string.
pub open spec fn opt_text(o: Option<String>) -> Option<Seq<char>> {
    match o {
        Some(s) => Some(s@),
        None => None,
    }
}

pub struct MetadataView {
    pub name: Seq<char>,
    pub version: Seq<char>,
}

impl View for ProjectMetadata {
    type V = MetadataView;

    open spec fn view(&self) -> MetadataView {
        MetadataView { name: self.name@, version: self.version@ }
    }
}

impl View for LogicMetadata {
    type V = Seq<Seq<char>>;

    open spec fn view(&self) -> Seq<Seq<char>> {
        texts(self.preconditions@)
    }
}

pub struct NodeView {
    pub id: Seq<char>,
    pub name: Seq<char>,
    pub kind: ScipSymbolKind,
    pub parent_id: Option<Seq<char>>,
    pub documentation: Option<Seq<char>>,
    pub signature: Option<Seq<char>>,
    pub logic: Option<Seq<Seq<char>>>,
}

impl View for SymbolNode {
    type V = NodeView;

    open spec fn view(&self) -> NodeView {
        NodeView {
            id: self.id@,
            name: self.name@,
            kind: self.kind,
            parent_id: opt_text(self.parent_id),
            documentation: opt_text(self.documentation),
            signature: opt_text(self.signature),
            logic: match self.logic {
                Some(l) => Some(l@),
                None => None,
            },
        }
    }
}

pub struct EdgeView {
    pub from: Seq<char>,
    pub to: Seq<char>,
    pub edge_type: EdgeType,
}

impl View for ReferenceEdge {
    type V = EdgeView;

    open spec fn view(&self) -> EdgeView {
        EdgeView { from: self.from@, to: self.to@, edge_type: self.edge_type }
    }
}

/// The views of a sequence of nodes.
pub open spec fn node_views(v: Seq<SymbolNode>) -> Seq<NodeView> {
    v.map_values(|n: SymbolNode| n@)
}

/// The views of a sequence of edges.
pub open spec fn edge_views(v: Seq<ReferenceEdge>) -> Seq<EdgeView> {
    v.map_values(|e: ReferenceEdge| e@)
}

pub struct GraphView {
    pub metadata: MetadataView,
    pub definitions: Seq<NodeView>,
    pub references: Seq<EdgeView>,
}

impl View for YcgGraph {
    type V = GraphView;

    open spec fn view(&self) -> GraphView {
        GraphView {
            metadata: self.metadata@,
            definitions: node_views(self.definitions@),
            references: edge_views(self.references@),
        }
    }
}

pub proof fn lemma_texts_push(v: Seq<String>, s: String)
    ensures
        texts(v.push(s)) == texts(v).push(s@),
{
    assert(texts(v.push(s)) =~= texts(v).push(s@));
}

pub proof fn lemma_node_views_push(v: Seq<SymbolNode>, n: SymbolNode)
    ensures
        node_views(v.push(n)) == node_views(v).push(n@),
{
    assert(node_views(v.push(n)) =~= node_views(v).push(n@));
}

pub proof fn lemma_edge_views_push(v: Seq<ReferenceEdge>, e: ReferenceEdge)
    ensures
        edge_views(v.push(e)) == edge_views(v).push(e@),
{
    assert(edge_views(v.push(e)) =~= edge_views(v).push(e@));
}

pub struct OptimizedView {
    pub metadata: MetadataView,
    pub definitions: Seq<NodeView>,
    pub adjacency: Seq<EntryView>,
}

impl View for YcgGraphOptimized {
    type V = OptimizedView;

    open spec fn view(&self) -> OptimizedView {
        OptimizedView {
            metadata: self.metadata@,
            definitions: node_views(self.definitions@),
            adjacency: self.adjacency@,
        }
    }
}

pub struct AdHocView {
    pub metadata: MetadataView,
    pub definitions: Seq<Seq<char>>,
    pub adjacency: Seq<EntryView>,
}

impl View for YcgGraphAdHoc {
    type V = AdHocView;

    open spec fn view(&self) -> AdHocView {
        AdHocView {
            metadata: self.metadata@,
            definitions: texts(self.definitions@),
            adjacency: self.adjacency@,
        }
    }
}

/// A copy of `s`.
pub fn copy_string(s: &String) -> (r: String)
    ensures
        r@ == s@,
{
    s.clone()
}

/// A copy of an optional string.
pub fn copy_opt_string(o: &Option<String>) -> (r: Option<String>)
    ensures
        opt_text(r) == opt_text(*o),
{
    match o {
        Some(s) => Some(copy_string(s)),
        None => None,
    }
}

/// A copy of a list of strings.
pub fn copy_strings(v: &Vec<String>) -> (r: Vec<String>)
    ensures
        texts(r@) == texts(v@),
{
    let mut r: Vec<String> = Vec::new();
    let mut i: usize = 0;
    while i < v.len()
        invariant
            i <= v.len(),
            texts(r@) == texts(v@.take(i as int)),
        decreases v.len() - i,
    {
        let ghost before = r@;
        r.push(copy_string(&v[i]));
        proof {
            assert(v@.take(i + 1) == v@.take(i as int).push(v@[i as int]));
            lemma_texts_push(before, r@.last());
            lemma_texts_push(v@.take(i as int), v@[i as int]);
        }
        i += 1;
    }
    assert(v@.take(v.len() as int) == v@);
    r
}

impl ProjectMetadata {
    pub fn copy(&self) -> (r: ProjectMetadata)
        ensures
            r@ == self@,
    {
        ProjectMetadata { name: copy_string(&self.name), version: copy_string(&self.version) }
    }
}

impl SymbolNode {
    pub fn copy(&self) -> (r: SymbolNode)
        ensures
            r@ == self@,
    {
        SymbolNode {
            id: copy_string(&self.id),
            name: copy_string(&self.name),
            kind: self.kind,
            parent_id: copy_opt_string(&self.parent_id),
            documentation: copy_opt_string(&self.documentation),
            signature: copy_opt_string(&self.signature),
            logic: match &self.logic {
                Some(l) => Some(LogicMetadata { preconditions: copy_strings(&l.preconditions) }),
                None => None,
            },
        }
    }
}

impl ReferenceEdge {
    pub fn copy(&self) -> (r: ReferenceEdge)
        ensures
            r@ == self@,
    {
        ReferenceEdge {
            from: copy_string(&self.from),
            to: copy_string(&self.to),
            edge_type: self.edge_type,
        }
    }
}

} // verus!
