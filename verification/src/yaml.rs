//! A YAML document as plain values, and the check that it has the shape of
//! a written graph: the flat one or the one in adjacency form.

use vstd::prelude::*;
use crate::adhoc_format::kind_named;
use crate::ordering::string_eq;

verus! {

#[verifier::external_type_specification]
#[verifier::external_body]
pub struct ExYamlValue(serde_yaml::Value);

/// What kind of value a YAML value is.
#[derive(Debug, Clone, Copy, PartialEq, Eq, Structural)]
pub enum YamlShape {
    Null,
    Text,
    Plain,
    Sequence,
    Mapping,
    Other,
}

/// A YAML value: a scalar, a sequence, a mapping, or something that is none
/// of these or lies too deep to matter.
#[derive(Debug)]
pub enum YamlNode {
    /// The null scalar.
    Null,
    /// A string scalar.
    Text(String),
    /// A number or a boolean.
    Plain,
    Sequence(Vec<YamlNode>),
    /// The entries of a mapping, each a key and a value.
    Mapping(Vec<(YamlNode, YamlNode)>),
    Other,
}

/// The mathematical form of a YAML value.
pub enum YamlDoc {
    /// The null scalar.
    Null,
    /// A string scalar.
    Text(Seq<char>),
    /// A number or a boolean.
    Plain,
    Sequence(Seq<YamlDoc>),
    /// The entries of a mapping in their order, each a key and a value.
    Mapping(Seq<(YamlDoc, YamlDoc)>),
    /// A tagged value, or what lies too deep to matter.
    Other,
}

/// The mathematical form of a value.
pub open spec fn doc_of(n: YamlNode) -> YamlDoc
    decreases n,
{
    match n {
        YamlNode::Null => YamlDoc::Null,
        YamlNode::Text(t) => YamlDoc::Text(t@),
        YamlNode::Plain => YamlDoc::Plain,
        YamlNode::Sequence(items) => YamlDoc::Sequence(
            Seq::new(
                items@.len(),
                |i: int|
                    if 0 <= i < items@.len() {
                        doc_of(items@[i])
                    } else {
                        YamlDoc::Other
                    },
            ),
        ),
        YamlNode::Mapping(entries) => YamlDoc::Mapping(
            Seq::new(
                entries@.len(),
                |i: int|
                    if 0 <= i < entries@.len() {
                        (doc_of(entries@[i].0), doc_of(entries@[i].1))
                    } else {
                        (YamlDoc::Other, YamlDoc::Other)
                    },
            ),
        ),
        YamlNode::Other => YamlDoc::Other,
    }
}

impl View for YamlNode {
    type V = YamlDoc;

    open spec fn view(&self) -> YamlDoc {
        doc_of(*self)
    }
}

/// The forms of a list of values.
pub open spec fn docs_of(items: Seq<YamlNode>) -> Seq<YamlDoc> {
    Seq::new(items.len(), |i: int| items[i]@)
}

/// The forms of a list of entries.
pub open spec fn entry_docs_of(entries: Seq<(YamlNode, YamlNode)>) -> Seq<(YamlDoc, YamlDoc)> {
    Seq::new(entries.len(), |i: int| (entries[i].0@, entries[i].1@))
}

/// The form of a sequence is the sequence of the forms of its items, that
/// of a mapping the sequence of the forms of its entries.
pub proof fn lemma_view_of_collections(v: YamlNode)
    ensures
        v matches YamlNode::Sequence(items) ==> v@ == YamlDoc::Sequence(docs_of(items@)),
        v matches YamlNode::Mapping(entries) ==> v@ == YamlDoc::Mapping(entry_docs_of(entries@)),
{
    match v {
        YamlNode::Sequence(items) => {
            assert(v@->Sequence_0 =~= docs_of(items@));
        },
        YamlNode::Mapping(entries) => {
            let docs = v@->Mapping_0;
            assert(docs.len() == entries@.len());
            assert forall|i: int| 0 <= i < docs.len() implies docs[i] == entry_docs_of(
                entries@,
            )[i] by {
                assert(docs[i].0 == entries@[i].0@);
                assert(docs[i].1 == entries@[i].1@);
            }
            assert(docs =~= entry_docs_of(entries@));
        },
        _ => {},
    }
}

/// What a `serde_yaml::Value` holds: `Null` for the null value, `Plain` for
/// a boolean or a number, `Text` with its text for a string, `Sequence`
/// with what its items hold, in order, for a sequence, `Mapping` with what
/// its keys and values hold, in the order of the mapping, for a mapping,
/// and `Other` for a tagged value.
pub uninterp spec fn yaml_content(v: serde_yaml::Value) -> YamlDoc;

/// What `serde_yaml::from_str` reads from a text: what the value holds
/// that it parses into, or nothing where the text is no YAML.
pub uninterp spec fn parsed_yaml(text: Seq<char>) -> Option<YamlDoc>;

impl YamlDoc {
    /// The kind of the value.
    pub open spec fn shape(self) -> YamlShape {
        match self {
            YamlDoc::Null => YamlShape::Null,
            YamlDoc::Text(_) => YamlShape::Text,
            YamlDoc::Plain => YamlShape::Plain,
            YamlDoc::Sequence(_) => YamlShape::Sequence,
            YamlDoc::Mapping(_) => YamlShape::Mapping,
            YamlDoc::Other => YamlShape::Other,
        }
    }

    /// Whether the value is a scalar: null, a string, a number or a
    /// boolean.
    pub open spec fn scalar(self) -> bool {
        self is Null || self is Text || self is Plain
    }

    /// Whether the value is the string `key`.
    pub open spec fn names(self, key: Seq<char>) -> bool {
        self == YamlDoc::Text(key)
    }

    /// The value down to `depth` levels: what lies deeper counts as
    /// `Other`.
    pub open spec fn cut(self, depth: nat) -> YamlDoc
        decreases depth,
    {
        if depth == 0 {
            YamlDoc::Other
        } else {
            match self {
                YamlDoc::Sequence(items) => YamlDoc::Sequence(
                    Seq::new(items.len(), |i: int| items[i].cut((depth - 1) as nat)),
                ),
                YamlDoc::Mapping(entries) => YamlDoc::Mapping(
                    Seq::new(
                        entries.len(),
                        |i: int|
                            (
                                entries[i].0.cut((depth - 1) as nat),
                                entries[i].1.cut((depth - 1) as nat),
                            ),
                    ),
                ),
                other => other,
            }
        }
    }
}

/// Whether the values hold, one by one, what `items` says.
pub open spec fn hold_items(values: Seq<serde_yaml::Value>, items: Seq<YamlDoc>) -> bool {
    values.len() == items.len() && forall|i: int|
        0 <= i < items.len() ==> yaml_content(#[trigger] values[i]) == items[i]
}

/// Whether the pairs of values hold, one by one, what `entries` says.
pub open spec fn hold_entries(
    values: Seq<(serde_yaml::Value, serde_yaml::Value)>,
    entries: Seq<(YamlDoc, YamlDoc)>,
) -> bool {
    values.len() == entries.len() && forall|i: int|
        0 <= i < entries.len() ==> yaml_content((#[trigger] values[i]).0) == entries[i].0
            && yaml_content(values[i].1) == entries[i].1
}

/// `serde_yaml::from_str` into a `Value`: the parsed value, or nothing
/// where the text is no YAML. What the value holds is a function of the
/// text alone.
#[verifier::external_body]
fn yaml_parse(text: &str) -> (r: Option<serde_yaml::Value>)
    ensures
        match r {
            Some(v) => parsed_yaml(text@) == Some(yaml_content(v)),
            None => parsed_yaml(text@).is_none(),
        },
{
    serde_yaml::from_str::<serde_yaml::Value>(text).ok()
}

/// The variant of a `serde_yaml::Value`: it is the kind of what the value
/// holds.
#[verifier::external_body]
fn yaml_shape(v: &serde_yaml::Value) -> (r: YamlShape)
    ensures
        r == yaml_content(*v).shape(),
{
    match v {
        serde_yaml::Value::Null => YamlShape::Null,
        serde_yaml::Value::Bool(_) => YamlShape::Plain,
        serde_yaml::Value::Number(_) => YamlShape::Plain,
        serde_yaml::Value::String(_) => YamlShape::Text,
        serde_yaml::Value::Sequence(_) => YamlShape::Sequence,
        serde_yaml::Value::Mapping(_) => YamlShape::Mapping,
        serde_yaml::Value::Tagged(_) => YamlShape::Other,
    }
}

/// `serde_yaml::Value::as_str`: of a string value, its text.
#[verifier::external_body]
fn yaml_text(v: &serde_yaml::Value) -> (r: Option<String>)
    ensures
        yaml_content(*v) is Text ==> r.is_some() && yaml_content(*v) == YamlDoc::Text(r.unwrap()@),
{
    v.as_str().map(|s| s.to_string())
}

/// `serde_yaml::Value::as_sequence`: of a sequence, its items in order.
#[verifier::external_body]
fn yaml_items(v: &serde_yaml::Value) -> (r: Vec<serde_yaml::Value>)
    ensures
        yaml_content(*v) is Sequence ==> hold_items(r@, yaml_content(*v)->Sequence_0),
{
    match v.as_sequence() {
        Some(items) => items.clone(),
        None => Vec::new(),
    }
}

/// `serde_yaml::Value::as_mapping` and `Mapping::iter`: of a mapping, its
/// entries in the order of the mapping.
#[verifier::external_body]
fn yaml_entries(v: &serde_yaml::Value) -> (r: Vec<(serde_yaml::Value, serde_yaml::Value)>)
    ensures
        yaml_content(*v) is Mapping ==> hold_entries(r@, yaml_content(*v)->Mapping_0),
{
    match v.as_mapping() {
        Some(m) => m.iter().map(|(k, x)| (k.clone(), x.clone())).collect(),
        None => Vec::new(),
    }
}

/// The value as plain values, down to `depth` levels; what lies deeper
/// counts as `Other`.
fn to_node(v: &serde_yaml::Value, depth: usize) -> (r: YamlNode)
    ensures
        r@ == yaml_content(*v).cut(depth as nat),
    decreases depth,
{
    if depth == 0 {
        return YamlNode::Other;
    }
    let ghost content = yaml_content(*v);
    match yaml_shape(v) {
        YamlShape::Null => YamlNode::Null,
        YamlShape::Plain => YamlNode::Plain,
        YamlShape::Text => match yaml_text(v) {
            Some(t) => YamlNode::Text(t),
            None => YamlNode::Other,
        },
        YamlShape::Sequence => {
            let items = yaml_items(v);
            let ghost docs = content->Sequence_0;
            let mut out: Vec<YamlNode> = Vec::new();
            let mut i: usize = 0;
            while i < items.len()
                invariant
                    depth > 0,
                    i <= items.len(),
                    hold_items(items@, docs),
                    out@.len() == i,
                    forall|j: int|
                        0 <= j < i ==> (#[trigger] out@[j])@ == docs[j].cut((depth - 1) as nat),
                decreases items.len() - i,
            {
                let node = to_node(&items[i], depth - 1);
                out.push(node);
                i += 1;
            }
            let r = YamlNode::Sequence(out);
            proof {
                lemma_view_of_collections(r);
                assert(docs_of(out@) =~= content.cut(depth as nat)->Sequence_0);
            }
            r
        },
        YamlShape::Mapping => {
            let entries = yaml_entries(v);
            let ghost docs = content->Mapping_0;
            let mut out: Vec<(YamlNode, YamlNode)> = Vec::new();
            let mut i: usize = 0;
            while i < entries.len()
                invariant
                    depth > 0,
                    i <= entries.len(),
                    hold_entries(entries@, docs),
                    out@.len() == i,
                    forall|j: int|
                        0 <= j < i ==> (#[trigger] out@[j]).0@ == docs[j].0.cut((depth - 1) as nat)
                            && out@[j].1@ == docs[j].1.cut((depth - 1) as nat),
                decreases entries.len() - i,
            {
                let key = to_node(&entries[i].0, depth - 1);
                let value = to_node(&entries[i].1, depth - 1);
                out.push((key, value));
                i += 1;
            }
            let r = YamlNode::Mapping(out);
            proof {
                lemma_view_of_collections(r);
                assert(entry_docs_of(out@) =~= content.cut(depth as nat)->Mapping_0);
            }
            r
        },
        YamlShape::Other => YamlNode::Other,
    }
}

/// The levels of a document that the shape of a graph reaches: the root,
/// the definitions, a node, its logic, the preconditions, a precondition.
pub const DOCUMENT_DEPTH: usize = 6;

/// What a text holds as YAML, down to the levels that the shape of a graph
/// reaches; nothing where the text is no YAML.
pub open spec fn document_of(text: Seq<char>) -> Option<YamlDoc> {
    match parsed_yaml(text) {
        Some(content) => Some(content.cut(6)),
        None => None,
    }
}

/// Parses YAML text into plain values, down to the levels that the shape
/// of a graph reaches. There is nothing where the text is no YAML.
pub fn parse_document(text: &str) -> (r: Option<YamlNode>)
    ensures
        match r {
            Some(doc) => document_of(text@) == Some(doc@),
            None => document_of(text@).is_none(),
        },
{
    match yaml_parse(text) {
        Some(v) => Some(to_node(&v, DOCUMENT_DEPTH)),
        None => None,
    }
}

impl YamlNode {
    pub fn is_scalar(&self) -> (r: bool)
        ensures
            r == self@.scalar(),
    {
        match self {
            YamlNode::Null => true,
            YamlNode::Text(_) => true,
            YamlNode::Plain => true,
            _ => false,
        }
    }

    pub fn is_name(&self, key: &str) -> (r: bool)
        ensures
            r == self@.names(key@),
    {
        match self {
            YamlNode::Text(t) => string_eq(t.as_str(), key),
            _ => false,
        }
    }
}

/// The index of the first of the first `n` entries whose key is the string
/// `key`, or `-1`.
pub open spec fn entry_index(entries: Seq<(YamlDoc, YamlDoc)>, key: Seq<char>, n: nat) -> int
    decreases n,
{
    if n == 0 {
        -1
    } else if entry_index(entries, key, (n - 1) as nat) >= 0 {
        entry_index(entries, key, (n - 1) as nat)
    } else if entries[n - 1].0.names(key) {
        n - 1
    } else {
        -1
    }
}

/// The value of the field `key` of a mapping: that of the first entry
/// whose key is the string `key`.
pub open spec fn field(entries: Seq<(YamlDoc, YamlDoc)>, key: Seq<char>) -> Option<YamlDoc> {
    let i = entry_index(entries, key, entries.len());
    if i >= 0 {
        Some(entries[i].1)
    } else {
        None
    }
}

pub proof fn lemma_entry_index(entries: Seq<(YamlDoc, YamlDoc)>, key: Seq<char>, k: nat, n: nat)
    requires
        k <= n <= entries.len(),
    ensures
        -1 <= entry_index(entries, key, n) < n,
        entry_index(entries, key, k) >= 0 ==> entry_index(entries, key, n) == entry_index(
            entries,
            key,
            k,
        ),
    decreases n,
{
    if n > k {
        lemma_entry_index(entries, key, k, (n - 1) as nat);
    } else if n > 0 {
        lemma_entry_index(entries, key, (n - 1) as nat, (n - 1) as nat);
    }
}

/// Looks a field up in a mapping.
pub fn get_field<'a>(entries: &'a Vec<(YamlNode, YamlNode)>, key: &str) -> (r: Option<&'a YamlNode>)
    ensures
        match r {
            Some(v) => field(entry_docs_of(entries@), key@) == Some(v@),
            None => field(entry_docs_of(entries@), key@).is_none(),
        },
{
    let ghost docs = entry_docs_of(entries@);
    let mut i: usize = 0;
    while i < entries.len()
        invariant
            i <= entries.len(),
            docs == entry_docs_of(entries@),
            entry_index(docs, key@, i as nat) == -1,
        decreases entries.len() - i,
    {
        assert(docs[i as int] == (entries@[i as int].0@, entries@[i as int].1@));
        if entries[i].0.is_name(key) {
            proof {
                lemma_entry_index(docs, key@, (i + 1) as nat, docs.len());
            }
            return Some(&entries[i].1);
        }
        i += 1;
    }
    None
}

/// A field that must be there and be a scalar.
pub open spec fn has_text(entries: Seq<(YamlDoc, YamlDoc)>, key: Seq<char>) -> bool {
    field(entries, key) matches Some(v) && v.scalar()
}

/// A field that is a scalar where it is there.
pub open spec fn has_optional_text(entries: Seq<(YamlDoc, YamlDoc)>, key: Seq<char>) -> bool {
    match field(entries, key) {
        Some(v) => v.scalar(),
        None => true,
    }
}

/// Whether every one of the values is a scalar.
pub open spec fn all_scalars(items: Seq<YamlDoc>) -> bool {
    forall|i: int| 0 <= i < items.len() ==> (#[trigger] items[i]).scalar()
}

/// Whether the value is a sequence of scalars.
pub open spec fn text_list(v: YamlDoc) -> bool {
    v matches YamlDoc::Sequence(items) && all_scalars(items)
}

/// Whether the text is the name of an edge type.
pub open spec fn edge_type_name(t: Seq<char>) -> bool {
    t == "calls"@ || t == "references"@ || t == "imports"@
}

/// The metadata: a mapping with a name and a version.
pub open spec fn meta_shaped(v: YamlDoc) -> bool {
    v matches YamlDoc::Mapping(m) && has_text(m, "name"@) && has_text(m, "version"@)
}

/// The logic of a node: null, or a mapping with a list of preconditions.
pub open spec fn logic_shaped(v: YamlDoc) -> bool {
    v is Null || (v matches YamlDoc::Mapping(m) && (field(m, "pre"@) matches Some(p)
        && text_list(p)))
}

/// A field that must be there and be the lower-case name of a kind.
pub open spec fn has_kind(entries: Seq<(YamlDoc, YamlDoc)>, key: Seq<char>) -> bool {
    field(entries, key) matches Some(YamlDoc::Text(t)) && kind_named(t).is_some()
}

/// A field that must be there and be the name of an edge type.
pub open spec fn has_edge_type(entries: Seq<(YamlDoc, YamlDoc)>, key: Seq<char>) -> bool {
    field(entries, key) matches Some(YamlDoc::Text(t)) && edge_type_name(t)
}

/// A field that has the shape of logic where it is there.
pub open spec fn has_optional_logic(entries: Seq<(YamlDoc, YamlDoc)>, key: Seq<char>) -> bool {
    match field(entries, key) {
        Some(l) => logic_shaped(l),
        None => true,
    }
}

/// A node: a mapping with an id, a name, the lower-case name of a kind
/// and, where they are there, a parent, documentation, a signature and
/// logic.
pub open spec fn node_shaped(v: YamlDoc) -> bool {
    v matches YamlDoc::Mapping(m) && has_text(m, "id"@) && has_text(m, "n"@) && has_kind(m, "t"@)
        && has_optional_text(m, "parent_id"@) && has_optional_text(m, "doc"@)
        && has_optional_text(m, "sig"@) && has_optional_logic(m, "logic"@)
}

/// An edge: a mapping with a source, a target and the name of an edge
/// type.
pub open spec fn edge_shaped(v: YamlDoc) -> bool {
    v matches YamlDoc::Mapping(m) && has_text(m, "from"@) && has_text(m, "to"@) && has_edge_type(
        m,
        "type"@,
    )
}

/// Whether every one of the values is a node.
pub open spec fn all_nodes(items: Seq<YamlDoc>) -> bool {
    forall|i: int| 0 <= i < items.len() ==> node_shaped(#[trigger] items[i])
}

/// Whether every one of the values is an edge.
pub open spec fn all_edges(items: Seq<YamlDoc>) -> bool {
    forall|i: int| 0 <= i < items.len() ==> edge_shaped(#[trigger] items[i])
}

/// An entry of the edges of one source: the name of an edge type and a
/// list of targets.
pub open spec fn group_shaped(e: (YamlDoc, YamlDoc)) -> bool {
    (e.0 matches YamlDoc::Text(t) && edge_type_name(t)) && text_list(e.1)
}

/// Whether every one of the entries is a group.
pub open spec fn all_groups(entries: Seq<(YamlDoc, YamlDoc)>) -> bool {
    forall|i: int| 0 <= i < entries.len() ==> group_shaped(#[trigger] entries[i])
}

/// The edges of one source: a mapping from names of edge types to lists of
/// targets.
pub open spec fn groups_shaped(v: YamlDoc) -> bool {
    v matches YamlDoc::Mapping(m) && all_groups(m)
}

/// An entry of the adjacency: a source and its edges.
pub open spec fn source_shaped(e: (YamlDoc, YamlDoc)) -> bool {
    e.0.scalar() && groups_shaped(e.1)
}

/// Whether every one of the entries is a source with its edges.
pub open spec fn all_sources(entries: Seq<(YamlDoc, YamlDoc)>) -> bool {
    forall|i: int| 0 <= i < entries.len() ==> source_shaped(#[trigger] entries[i])
}

/// The adjacency: a mapping from sources to their edges.
pub open spec fn adjacency_shaped(v: YamlDoc) -> bool {
    v matches YamlDoc::Mapping(m) && all_sources(m)
}

/// A list of edges.
pub open spec fn edges_shaped(v: YamlDoc) -> bool {
    v matches YamlDoc::Sequence(edges) && all_edges(edges)
}

/// What the flat and the optimized graph share: metadata under `_meta` and
/// a list of nodes under `_defs`.
pub open spec fn header_shaped(m: Seq<(YamlDoc, YamlDoc)>) -> bool {
    (field(m, "_meta"@) matches Some(meta) && meta_shaped(meta)) && (field(
        m,
        "_defs"@,
    ) matches Some(YamlDoc::Sequence(defs)) && all_nodes(defs))
}

/// The flat graph: the header and, where it is there, a list of edges
/// under `graph`. A graph without edges is written without that key.
pub open spec fn flat_shaped(v: YamlDoc) -> bool {
    v matches YamlDoc::Mapping(m) && header_shaped(m) && (match field(m, "graph"@) {
        Some(g) => edges_shaped(g),
        None => true,
    })
}

/// The optimized graph: the header and an adjacency under `graph`.
pub open spec fn optimized_shaped(v: YamlDoc) -> bool {
    v matches YamlDoc::Mapping(m) && header_shaped(m) && (field(m, "graph"@) matches Some(g)
        && adjacency_shaped(g))
}

/// Whether a document has the shape of a written graph.
pub open spec fn graph_shaped(v: YamlDoc) -> bool {
    flat_shaped(v) || optimized_shaped(v)
}

fn check_text(entries: &Vec<(YamlNode, YamlNode)>, key: &str) -> (r: bool)
    ensures
        r == has_text(entry_docs_of(entries@), key@),
{
    match get_field(entries, key) {
        Some(v) => v.is_scalar(),
        None => false,
    }
}

fn check_optional_text(entries: &Vec<(YamlNode, YamlNode)>, key: &str) -> (r: bool)
    ensures
        r == has_optional_text(entry_docs_of(entries@), key@),
{
    match get_field(entries, key) {
        Some(v) => v.is_scalar(),
        None => true,
    }
}

fn check_text_list(v: &YamlNode) -> (r: bool)
    ensures
        r == text_list(v@),
{
    proof {
        lemma_view_of_collections(*v);
    }
    match v {
        YamlNode::Sequence(items) => {
            let ghost docs = docs_of(items@);
            let mut i: usize = 0;
            while i < items.len()
                invariant
                    i <= items.len(),
                    docs == docs_of(items@),
                    v@ == YamlDoc::Sequence(docs),
                    forall|j: int| 0 <= j < i ==> (#[trigger] docs[j]).scalar(),
                decreases items.len() - i,
            {
                assert(docs[i as int] == items@[i as int]@);
                if !items[i].is_scalar() {
                    return false;
                }
                i += 1;
            }
            true
        },
        _ => false,
    }
}

fn is_edge_type_name(t: &str) -> (r: bool)
    ensures
        r == edge_type_name(t@),
{
    string_eq(t, "calls") || string_eq(t, "references") || string_eq(t, "imports")
}

fn is_kind_name(t: &str) -> (r: bool)
    ensures
        r == kind_named(t@).is_some(),
{
    string_eq(t, "file") || string_eq(t, "module") || string_eq(t, "class") || string_eq(
        t,
        "method",
    ) || string_eq(t, "function") || string_eq(t, "variable") || string_eq(t, "interface")
}

fn check_kind(entries: &Vec<(YamlNode, YamlNode)>, key: &str) -> (r: bool)
    ensures
        r == has_kind(entry_docs_of(entries@), key@),
{
    match get_field(entries, key) {
        Some(YamlNode::Text(t)) => is_kind_name(t.as_str()),
        _ => false,
    }
}

fn check_edge_type(entries: &Vec<(YamlNode, YamlNode)>, key: &str) -> (r: bool)
    ensures
        r == has_edge_type(entry_docs_of(entries@), key@),
{
    match get_field(entries, key) {
        Some(YamlNode::Text(t)) => is_edge_type_name(t.as_str()),
        _ => false,
    }
}

fn check_meta(v: &YamlNode) -> (r: bool)
    ensures
        r == meta_shaped(v@),
{
    proof {
        lemma_view_of_collections(*v);
    }
    match v {
        YamlNode::Mapping(m) => check_text(m, "name") && check_text(m, "version"),
        _ => false,
    }
}

fn check_logic(v: &YamlNode) -> (r: bool)
    ensures
        r == logic_shaped(v@),
{
    proof {
        lemma_view_of_collections(*v);
    }
    match v {
        YamlNode::Null => true,
        YamlNode::Mapping(m) => match get_field(m, "pre") {
            Some(p) => check_text_list(p),
            None => false,
        },
        _ => false,
    }
}

fn check_optional_logic(entries: &Vec<(YamlNode, YamlNode)>, key: &str) -> (r: bool)
    ensures
        r == has_optional_logic(entry_docs_of(entries@), key@),
{
    match get_field(entries, key) {
        Some(l) => check_logic(l),
        None => true,
    }
}

fn check_node(v: &YamlNode) -> (r: bool)
    ensures
        r == node_shaped(v@),
{
    proof {
        lemma_view_of_collections(*v);
    }
    match v {
        YamlNode::Mapping(m) => check_text(m, "id") && check_text(m, "n") && check_kind(m, "t")
            && check_optional_text(m, "parent_id") && check_optional_text(m, "doc")
            && check_optional_text(m, "sig") && check_optional_logic(m, "logic"),
        _ => false,
    }
}

fn check_edge(v: &YamlNode) -> (r: bool)
    ensures
        r == edge_shaped(v@),
{
    proof {
        lemma_view_of_collections(*v);
    }
    match v {
        YamlNode::Mapping(m) => check_text(m, "from") && check_text(m, "to") && check_edge_type(
            m,
            "type",
        ),
        _ => false,
    }
}

fn check_group(e: &(YamlNode, YamlNode)) -> (r: bool)
    ensures
        r == group_shaped((e.0@, e.1@)),
{
    let key_ok = match &e.0 {
        YamlNode::Text(t) => is_edge_type_name(t.as_str()),
        _ => false,
    };
    key_ok && check_text_list(&e.1)
}

fn check_groups(v: &YamlNode) -> (r: bool)
    ensures
        r == groups_shaped(v@),
{
    proof {
        lemma_view_of_collections(*v);
    }
    match v {
        YamlNode::Mapping(m) => {
            let ghost docs = entry_docs_of(m@);
            let mut i: usize = 0;
            while i < m.len()
                invariant
                    i <= m.len(),
                    docs == entry_docs_of(m@),
                    v@ == YamlDoc::Mapping(docs),
                    forall|j: int| 0 <= j < i ==> group_shaped(#[trigger] docs[j]),
                decreases m.len() - i,
            {
                assert(docs[i as int] == (m@[i as int].0@, m@[i as int].1@));
                if !check_group(&m[i]) {
                    return false;
                }
                i += 1;
            }
            true
        },
        _ => false,
    }
}

fn check_adjacency(v: &YamlNode) -> (r: bool)
    ensures
        r == adjacency_shaped(v@),
{
    proof {
        lemma_view_of_collections(*v);
    }
    match v {
        YamlNode::Mapping(m) => {
            let ghost docs = entry_docs_of(m@);
            let mut i: usize = 0;
            while i < m.len()
                invariant
                    i <= m.len(),
                    docs == entry_docs_of(m@),
                    v@ == YamlDoc::Mapping(docs),
                    forall|j: int| 0 <= j < i ==> source_shaped(#[trigger] docs[j]),
                decreases m.len() - i,
            {
                assert(docs[i as int] == (m@[i as int].0@, m@[i as int].1@));
                let key_ok = m[i].0.is_scalar();
                let value_ok = check_groups(&m[i].1);
                if !key_ok || !value_ok {
                    return false;
                }
                i += 1;
            }
            true
        },
        _ => false,
    }
}

fn check_nodes(v: &YamlNode) -> (r: bool)
    ensures
        r == (v@ matches YamlDoc::Sequence(defs) && all_nodes(defs)),
{
    proof {
        lemma_view_of_collections(*v);
    }
    match v {
        YamlNode::Sequence(defs) => {
            let ghost docs = docs_of(defs@);
            let mut i: usize = 0;
            while i < defs.len()
                invariant
                    i <= defs.len(),
                    docs == docs_of(defs@),
                    v@ == YamlDoc::Sequence(docs),
                    forall|j: int| 0 <= j < i ==> node_shaped(#[trigger] docs[j]),
                decreases defs.len() - i,
            {
                assert(docs[i as int] == defs@[i as int]@);
                if !check_node(&defs[i]) {
                    return false;
                }
                i += 1;
            }
            true
        },
        _ => false,
    }
}

fn check_header(m: &Vec<(YamlNode, YamlNode)>) -> (r: bool)
    ensures
        r == header_shaped(entry_docs_of(m@)),
{
    let meta_ok = match get_field(m, "_meta") {
        Some(meta) => check_meta(meta),
        None => false,
    };
    let defs_ok = match get_field(m, "_defs") {
        Some(defs) => check_nodes(defs),
        None => false,
    };
    meta_ok && defs_ok
}

fn check_edges(v: &YamlNode) -> (r: bool)
    ensures
        r == edges_shaped(v@),
{
    proof {
        lemma_view_of_collections(*v);
    }
    match v {
        YamlNode::Sequence(edges) => {
            let ghost docs = docs_of(edges@);
            let mut i: usize = 0;
            while i < edges.len()
                invariant
                    i <= edges.len(),
                    docs == docs_of(edges@),
                    v@ == YamlDoc::Sequence(docs),
                    forall|j: int| 0 <= j < i ==> edge_shaped(#[trigger] docs[j]),
                decreases edges.len() - i,
            {
                assert(docs[i as int] == edges@[i as int]@);
                if !check_edge(&edges[i]) {
                    return false;
                }
                i += 1;
            }
            true
        },
        _ => false,
    }
}

/// Whether a document has the shape of a written graph, flat or
/// optimized.
pub fn conforms(doc: &YamlNode) -> (r: bool)
    ensures
        r == graph_shaped(doc@),
{
    proof {
        lemma_view_of_collections(*doc);
    }
    match doc {
        YamlNode::Mapping(m) => {
            if !check_header(m) {
                return false;
            }
            match get_field(m, "graph") {
                Some(g) => check_edges(g) || check_adjacency(g),
                None => true,
            }
        },
        _ => false,
    }
}


/// The values, each down to `depth` levels.
pub open spec fn cut_items(items: Seq<YamlDoc>, depth: nat) -> Seq<YamlDoc> {
    Seq::new(items.len(), |i: int| items[i].cut(depth))
}

/// The entries, each key and each value down to `depth` levels.
pub open spec fn cut_entries(entries: Seq<(YamlDoc, YamlDoc)>, depth: nat) -> Seq<
    (YamlDoc, YamlDoc),
> {
    Seq::new(entries.len(), |i: int| (entries[i].0.cut(depth), entries[i].1.cut(depth)))
}

/// A value cut at one level or more keeps its kind; a scalar stays as it
/// is; of a sequence the items are cut one level less, of a mapping the
/// entries.
pub proof fn lemma_cut(c: YamlDoc, depth: nat)
    requires
        depth >= 1,
    ensures
        c.cut(depth).shape() == c.shape(),
        c.cut(depth).scalar() == c.scalar(),
        c.scalar() ==> c.cut(depth) == c,
        c matches YamlDoc::Sequence(items) ==> c.cut(depth) == YamlDoc::Sequence(
            cut_items(items, (depth - 1) as nat),
        ),
        c matches YamlDoc::Mapping(entries) ==> c.cut(depth) == YamlDoc::Mapping(
            cut_entries(entries, (depth - 1) as nat),
        ),
{
    match c {
        YamlDoc::Sequence(items) => {
            assert(c.cut(depth)->Sequence_0 =~= cut_items(items, (depth - 1) as nat));
        },
        YamlDoc::Mapping(entries) => {
            assert(c.cut(depth)->Mapping_0 =~= cut_entries(entries, (depth - 1) as nat));
        },
        _ => {},
    }
}

/// Cutting the entries at one level or more keeps the place of a key.
pub proof fn lemma_cut_entry_index(
    entries: Seq<(YamlDoc, YamlDoc)>,
    depth: nat,
    key: Seq<char>,
    n: nat,
)
    requires
        depth >= 1,
        n <= entries.len(),
    ensures
        entry_index(cut_entries(entries, depth), key, n) == entry_index(entries, key, n),
    decreases n,
{
    if n > 0 {
        lemma_cut_entry_index(entries, depth, key, (n - 1) as nat);
        lemma_cut(entries[n - 1].0, depth);
    }
}

/// The field of cut entries is the cut field of the entries.
pub proof fn lemma_cut_field(entries: Seq<(YamlDoc, YamlDoc)>, depth: nat, key: Seq<char>)
    requires
        depth >= 1,
    ensures
        field(cut_entries(entries, depth), key) == (match field(entries, key) {
            Some(v) => Some(v.cut(depth)),
            None => None,
        }),
        has_text(cut_entries(entries, depth), key) == has_text(entries, key),
        has_optional_text(cut_entries(entries, depth), key) == has_optional_text(entries, key),
        has_kind(cut_entries(entries, depth), key) == has_kind(entries, key),
        has_edge_type(cut_entries(entries, depth), key) == has_edge_type(entries, key),
{
    lemma_cut_entry_index(entries, depth, key, entries.len());
    lemma_entry_index(entries, key, entries.len(), entries.len());
    match field(entries, key) {
        Some(v) => {
            lemma_cut(v, depth);
        },
        None => {},
    }
}

/// A list of scalars is seen two levels down.
pub proof fn lemma_cut_text_list(c: YamlDoc, depth: nat)
    requires
        depth >= 2,
    ensures
        text_list(c.cut(depth)) == text_list(c),
{
    lemma_cut(c, depth);
    match c {
        YamlDoc::Sequence(items) => {
            let cut = cut_items(items, (depth - 1) as nat);
            assert forall|i: int| 0 <= i < items.len() implies (#[trigger] cut[i]).scalar()
                == items[i].scalar() by {
                lemma_cut(items[i], (depth - 1) as nat);
            }
            if all_scalars(items) {
                assert forall|i: int| 0 <= i < cut.len() implies (#[trigger] cut[i]).scalar() by {
                    assert(items[i].scalar());
                }
            }
            if all_scalars(cut) {
                assert forall|i: int| 0 <= i < items.len() implies (#[trigger] items[i]).scalar() by {
                    assert(cut[i].scalar());
                }
            }
        },
        _ => {},
    }
}

/// Metadata and an edge are seen two levels down.
pub proof fn lemma_cut_meta_edge(c: YamlDoc, depth: nat)
    requires
        depth >= 2,
    ensures
        meta_shaped(c.cut(depth)) == meta_shaped(c),
        edge_shaped(c.cut(depth)) == edge_shaped(c),
{
    lemma_cut(c, depth);
    match c {
        YamlDoc::Mapping(m) => {
            lemma_cut_field(m, (depth - 1) as nat, "name"@);
            lemma_cut_field(m, (depth - 1) as nat, "version"@);
            lemma_cut_field(m, (depth - 1) as nat, "from"@);
            lemma_cut_field(m, (depth - 1) as nat, "to"@);
            lemma_cut_field(m, (depth - 1) as nat, "type"@);
        },
        _ => {},
    }
}

/// Logic is seen three levels down.
pub proof fn lemma_cut_logic(c: YamlDoc, depth: nat)
    requires
        depth >= 3,
    ensures
        logic_shaped(c.cut(depth)) == logic_shaped(c),
{
    lemma_cut(c, depth);
    match c {
        YamlDoc::Mapping(m) => {
            lemma_cut_field(m, (depth - 1) as nat, "pre"@);
            match field(m, "pre"@) {
                Some(p) => {
                    lemma_cut_text_list(p, (depth - 1) as nat);
                },
                None => {},
            }
        },
        _ => {},
    }
}

/// A node is seen four levels down.
pub proof fn lemma_cut_node(c: YamlDoc, depth: nat)
    requires
        depth >= 4,
    ensures
        node_shaped(c.cut(depth)) == node_shaped(c),
{
    lemma_cut(c, depth);
    match c {
        YamlDoc::Mapping(m) => {
            let d = (depth - 1) as nat;
            lemma_cut_field(m, d, "id"@);
            lemma_cut_field(m, d, "n"@);
            lemma_cut_field(m, d, "t"@);
            lemma_cut_field(m, d, "parent_id"@);
            lemma_cut_field(m, d, "doc"@);
            lemma_cut_field(m, d, "sig"@);
            lemma_cut_field(m, d, "logic"@);
            match field(m, "logic"@) {
                Some(l) => {
                    lemma_cut_logic(l, d);
                },
                None => {},
            }
        },
        _ => {},
    }
}

/// A list of nodes is seen five levels down, a list of edges three.
pub proof fn lemma_cut_lists(c: YamlDoc, depth: nat)
    ensures
        depth >= 5 ==> ((c.cut(depth) matches YamlDoc::Sequence(defs) && all_nodes(defs)) == (
        c matches YamlDoc::Sequence(defs) && all_nodes(defs))),
        depth >= 3 ==> edges_shaped(c.cut(depth)) == edges_shaped(c),
{
    if depth >= 1 {
        lemma_cut(c, depth);
    }
    match c {
        YamlDoc::Sequence(items) => {
            let cut = cut_items(items, (depth - 1) as nat);
            if depth >= 5 {
                assert forall|i: int| 0 <= i < items.len() implies node_shaped(#[trigger] cut[i])
                    == node_shaped(items[i]) by {
                    lemma_cut_node(items[i], (depth - 1) as nat);
                }
                if all_nodes(items) {
                    assert forall|i: int| 0 <= i < cut.len() implies node_shaped(
                        #[trigger] cut[i],
                    ) by {
                        assert(node_shaped(items[i]));
                    }
                }
                if all_nodes(cut) {
                    assert forall|i: int| 0 <= i < items.len() implies node_shaped(
                        #[trigger] items[i],
                    ) by {
                        assert(node_shaped(cut[i]));
                    }
                }
            }
            if depth >= 3 {
                assert forall|i: int| 0 <= i < items.len() implies edge_shaped(#[trigger] cut[i])
                    == edge_shaped(items[i]) by {
                    lemma_cut_meta_edge(items[i], (depth - 1) as nat);
                }
                if all_edges(items) {
                    assert forall|i: int| 0 <= i < cut.len() implies edge_shaped(
                        #[trigger] cut[i],
                    ) by {
                        assert(edge_shaped(items[i]));
                    }
                }
                if all_edges(cut) {
                    assert forall|i: int| 0 <= i < items.len() implies edge_shaped(
                        #[trigger] items[i],
                    ) by {
                        assert(edge_shaped(cut[i]));
                    }
                }
            }
        },
        _ => {},
    }
}

/// The edges of one source are seen three levels down.
pub proof fn lemma_cut_groups(c: YamlDoc, depth: nat)
    requires
        depth >= 3,
    ensures
        groups_shaped(c.cut(depth)) == groups_shaped(c),
{
    lemma_cut(c, depth);
    match c {
        YamlDoc::Mapping(m) => {
            let d = (depth - 1) as nat;
            let cut = cut_entries(m, d);
            assert forall|i: int| 0 <= i < m.len() implies group_shaped(#[trigger] cut[i])
                == group_shaped(m[i]) by {
                lemma_cut(m[i].0, d);
                lemma_cut_text_list(m[i].1, d);
            }
            if all_groups(m) {
                assert forall|i: int| 0 <= i < cut.len() implies group_shaped(#[trigger] cut[i]) by {
                    assert(group_shaped(m[i]));
                }
            }
            if all_groups(cut) {
                assert forall|i: int| 0 <= i < m.len() implies group_shaped(#[trigger] m[i]) by {
                    assert(group_shaped(cut[i]));
                }
            }
        },
        _ => {},
    }
}

/// The adjacency is seen four levels down.
pub proof fn lemma_cut_adjacency(c: YamlDoc, depth: nat)
    requires
        depth >= 4,
    ensures
        adjacency_shaped(c.cut(depth)) == adjacency_shaped(c),
{
    lemma_cut(c, depth);
    match c {
        YamlDoc::Mapping(m) => {
            let d = (depth - 1) as nat;
            let cut = cut_entries(m, d);
            assert forall|i: int| 0 <= i < m.len() implies source_shaped(#[trigger] cut[i])
                == source_shaped(m[i]) by {
                lemma_cut(m[i].0, d);
                lemma_cut_groups(m[i].1, d);
            }
            if all_sources(m) {
                assert forall|i: int| 0 <= i < cut.len() implies source_shaped(
                    #[trigger] cut[i],
                ) by {
                    assert(source_shaped(m[i]));
                }
            }
            if all_sources(cut) {
                assert forall|i: int| 0 <= i < m.len() implies source_shaped(#[trigger] m[i]) by {
                    assert(source_shaped(cut[i]));
                }
            }
        },
        _ => {},
    }
}

/// The shape of a written graph reaches six levels down: what lies deeper
/// does not matter to it.
pub proof fn lemma_shape_within_reach(c: YamlDoc, depth: nat)
    requires
        depth >= 6,
    ensures
        flat_shaped(c.cut(depth)) == flat_shaped(c),
        optimized_shaped(c.cut(depth)) == optimized_shaped(c),
        graph_shaped(c.cut(depth)) == graph_shaped(c),
{
    lemma_cut(c, depth);
    match c {
        YamlDoc::Mapping(m) => {
            let d = (depth - 1) as nat;
            lemma_cut_field(m, d, "_meta"@);
            lemma_cut_field(m, d, "_defs"@);
            lemma_cut_field(m, d, "graph"@);
            match field(m, "_meta"@) {
                Some(meta) => {
                    lemma_cut_meta_edge(meta, d);
                },
                None => {},
            }
            match field(m, "_defs"@) {
                Some(defs) => {
                    lemma_cut_lists(defs, d);
                },
                None => {},
            }
            match field(m, "graph"@) {
                Some(g) => {
                    lemma_cut_lists(g, d);
                    lemma_cut_adjacency(g, d);
                },
                None => {},
            }
        },
        _ => {},
    }
}

} // verus!
