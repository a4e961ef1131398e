//! The pipe-delimited encoding of nodes, `id|name|kind`, and its parser.
//!
//! A `|` inside a field is written `\|`. A `|` separates two fields exactly
//! when no backslash stands directly before it.

use vstd::prelude::*;
use crate::adjacency::AdjacencyGraph;
use crate::model::{
    lemma_node_views_push, lemma_texts_push, node_views, texts, AdHocView, GraphView, NodeView,
    ScipSymbolKind, SymbolNode, YcgGraph, YcgGraphAdHoc,
};
use crate::text::{
    append_chars, ascii_lowercase, ascii_lowercase_chars, chars_of, decimal, decimal_chars,
    is_literal, lemma_seqs_of_push, replace_all, replace_lit, seqs_of, string_of,
};

verus! {

/// `s` with each `|` written as `\|`.
pub open spec fn escaped(s: Seq<char>) -> Seq<char> {
    replace_all(s, "|"@, "\\|"@)
}

/// `s` with each `\|` written as `|`.
pub open spec fn unescaped(s: Seq<char>) -> Seq<char> {
    replace_all(s, "\\|"@, "|"@)
}

/// Writes each `|` as `\|`.
pub fn escape_pipes(s: &str) -> (r: String)
    ensures
        r@ == escaped(s@),
{
    proof {
        reveal_strlit("|");
    }
    let v = chars_of(s);
    let r = replace_lit(&v, "|", "\\|");
    string_of(&r)
}

/// Writes each `\|` as `|`.
pub fn unescape_pipes(s: &str) -> (r: String)
    ensures
        r@ == unescaped(s@),
{
    proof {
        reveal_strlit("\\|");
    }
    let v = chars_of(s);
    let r = replace_lit(&v, "\\|", "|");
    string_of(&r)
}

/// Whether the character at `i` is a `|` that separates two fields.
pub open spec fn separator_at(s: Seq<char>, i: int) -> bool {
    0 <= i < s.len() && s[i] == '|' && (i == 0 || s[i - 1] != '\\')
}

/// The number of separators of `s`.
pub open spec fn separator_count(s: Seq<char>) -> nat
    decreases s.len(),
{
    if s.len() == 0 {
        0
    } else if separator_at(s, s.len() - 1) {
        separator_count(s.drop_last()) + 1
    } else {
        separator_count(s.drop_last())
    }
}

/// The fields of `s`: what stands between its separators, escapes kept.
pub open spec fn fields(s: Seq<char>) -> Seq<Seq<char>>
    decreases s.len(),
{
    if s.len() == 0 {
        seq![Seq::<char>::empty()]
    } else {
        let p = fields(s.drop_last());
        if separator_at(s, s.len() - 1) {
            p.push(Seq::<char>::empty())
        } else {
            p.drop_last().push(p.last().push(s.last()))
        }
    }
}

/// There is one field more than there are separators.
pub proof fn lemma_field_count(s: Seq<char>)
    ensures
        fields(s).len() == separator_count(s) + 1,
    decreases s.len(),
{
    if s.len() > 0 {
        lemma_field_count(s.drop_last());
    }
}

/// Splits `v` at its separators.
pub fn split_fields(v: &Vec<char>) -> (r: Vec<Vec<char>>)
    ensures
        seqs_of(r@) == fields(v@),
{
    let mut parts: Vec<Vec<char>> = Vec::new();
    let mut current: Vec<char> = Vec::new();
    let mut i: usize = 0;
    assert(v@.take(0) == Seq::<char>::empty());
    assert(seqs_of(parts@).push(current@) =~= seq![Seq::<char>::empty()]);
    while i < v.len()
        invariant
            i <= v.len(),
            seqs_of(parts@).push(current@) == fields(v@.take(i as int)),
        decreases v.len() - i,
    {
        proof {
            assert(v@.take(i + 1).drop_last() == v@.take(i as int));
        }
        let ghost before = seqs_of(parts@).push(current@);
        if v[i] == '|' && (i == 0 || v[i - 1] != '\\') {
            proof {
                lemma_seqs_of_push(parts@, current);
            }
            parts.push(current);
            current = Vec::new();
        } else {
            current.push(v[i]);
            assert(before.drop_last() == seqs_of(parts@));
        }
        i += 1;
    }
    assert(v@.take(v.len() as int) == v@);
    proof {
        lemma_seqs_of_push(parts@, current);
    }
    parts.push(current);
    parts
}

/// Counts the separators of `v`.
pub fn count_separators(v: &Vec<char>) -> (r: usize)
    ensures
        r == separator_count(v@),
{
    let mut count: usize = 0;
    let mut i: usize = 0;
    assert(v@.take(0) == Seq::<char>::empty());
    while i < v.len()
        invariant
            i <= v.len(),
            count <= i,
            count == separator_count(v@.take(i as int)),
        decreases v.len() - i,
    {
        proof {
            assert(v@.take(i + 1).drop_last() == v@.take(i as int));
        }
        if v[i] == '|' && (i == 0 || v[i - 1] != '\\') {
            count += 1;
        }
        i += 1;
    }
    assert(v@.take(v.len() as int) == v@);
    count
}

/// Splits a string at its separators; the escapes stay in the fields. It
/// never fails.
pub fn split_escaped(s: &str) -> (r: Result<Vec<String>, AdHocParseError>)
    ensures
        r matches Ok(parts) && texts(parts@) == fields(s@),
{
    Ok(split_fields_of(s))
}

/// Splits a string at its separators; the escapes stay in the fields.
pub fn split_fields_of(s: &str) -> (r: Vec<String>)
    ensures
        texts(r@) == fields(s@),
{
    let v = chars_of(s);
    let parts = split_fields(&v);
    let mut r: Vec<String> = Vec::new();
    let mut i: usize = 0;
    assert(texts(r@) =~= seqs_of(parts@.take(0)));
    while i < parts.len()
        invariant
            i <= parts.len(),
            texts(r@) == seqs_of(parts@.take(i as int)),
        decreases parts.len() - i,
    {
        let x = string_of(&parts[i]);
        proof {
            lemma_texts_push(r@, x);
            assert(parts@.take(i + 1) == parts@.take(i as int).push(parts@[i as int]));
            lemma_seqs_of_push(parts@.take(i as int), parts@[i as int]);
        }
        r.push(x);
        i += 1;
    }
    assert(parts@.take(parts.len() as int) == parts@);
    r
}

/// The name of a kind in the encoding.
pub open spec fn kind_name(kind: ScipSymbolKind) -> Seq<char> {
    match kind {
        ScipSymbolKind::File => "file"@,
        ScipSymbolKind::Module => "module"@,
        ScipSymbolKind::Class => "class"@,
        ScipSymbolKind::Method => "method"@,
        ScipSymbolKind::Function => "function"@,
        ScipSymbolKind::Variable => "variable"@,
        ScipSymbolKind::Interface => "interface"@,
    }
}

/// The name of a kind in the encoding.
pub fn kind_str(kind: &ScipSymbolKind) -> (r: &'static str)
    ensures
        r@ == kind_name(*kind),
{
    match kind {
        ScipSymbolKind::File => "file",
        ScipSymbolKind::Module => "module",
        ScipSymbolKind::Class => "class",
        ScipSymbolKind::Method => "method",
        ScipSymbolKind::Function => "function",
        ScipSymbolKind::Variable => "variable",
        ScipSymbolKind::Interface => "interface",
    }
}

/// The name of a kind in the encoding.
pub fn kind_to_string(kind: &ScipSymbolKind) -> (r: String)
    ensures
        r@ == kind_name(*kind),
{
    kind_str(kind).to_string()
}

/// The kind that a lower-case name stands for.
pub open spec fn kind_named(s: Seq<char>) -> Option<ScipSymbolKind> {
    if s == "file"@ {
        Some(ScipSymbolKind::File)
    } else if s == "module"@ {
        Some(ScipSymbolKind::Module)
    } else if s == "class"@ {
        Some(ScipSymbolKind::Class)
    } else if s == "method"@ {
        Some(ScipSymbolKind::Method)
    } else if s == "function"@ {
        Some(ScipSymbolKind::Function)
    } else if s == "variable"@ {
        Some(ScipSymbolKind::Variable)
    } else if s == "interface"@ {
        Some(ScipSymbolKind::Interface)
    } else {
        None
    }
}

/// Reads the name of a kind, in any mix of ASCII upper and lower case.
pub fn string_to_kind(s: &str) -> (r: Result<ScipSymbolKind, AdHocParseError>)
    ensures
        match r {
            Ok(k) => kind_named(ascii_lowercase(s@)) == Some(k),
            Err(e) => kind_named(ascii_lowercase(s@)).is_none() && e@
                == (ParseErrorView::UnknownKind { kind: s@ }),
        },
{
    match kind_of_name(s) {
        Some(k) => Ok(k),
        None => Err(AdHocParseError::UnknownKind { kind: s.to_string() }),
    }
}

fn kind_of_name(s: &str) -> (r: Option<ScipSymbolKind>)
    ensures
        r == kind_named(ascii_lowercase(s@)),
{
    let v = chars_of(s);
    let l = ascii_lowercase_chars(&v);
    if is_literal(&l, "file") {
        Some(ScipSymbolKind::File)
    } else if is_literal(&l, "module") {
        Some(ScipSymbolKind::Module)
    } else if is_literal(&l, "class") {
        Some(ScipSymbolKind::Class)
    } else if is_literal(&l, "method") {
        Some(ScipSymbolKind::Method)
    } else if is_literal(&l, "function") {
        Some(ScipSymbolKind::Function)
    } else if is_literal(&l, "variable") {
        Some(ScipSymbolKind::Variable)
    } else if is_literal(&l, "interface") {
        Some(ScipSymbolKind::Interface)
    } else {
        None
    }
}

/// Three fields joined by `|`.
pub open spec fn three_fields(a: Seq<char>, b: Seq<char>, c: Seq<char>) -> Seq<char> {
    a + seq!['|'] + b + seq!['|'] + c
}

/// The encoding of a node: `id|name|kind`, the first two escaped.
pub open spec fn serialized(node: NodeView) -> Seq<char> {
    three_fields(escaped(node.id), escaped(node.name), kind_name(node.kind))
}

/// Joins three fields by `|`.
pub fn join_three(a: &str, b: &str, c: &str) -> (r: String)
    ensures
        r@ == three_fields(a@, b@, c@),
{
    let mut out = chars_of(a);
    out.push('|');
    append_chars(&mut out, &chars_of(b));
    out.push('|');
    append_chars(&mut out, &chars_of(c));
    string_of(&out)
}

/// Why a string is no encoded node.
#[derive(Debug, Clone)]
pub enum AdHocParseError {
    /// The string has `found` fields where three are expected.
    FieldCount { found: usize, input: String },
    /// The third field names no kind.
    InvalidKind { kind: String },
    /// The text names no kind.
    UnknownKind { kind: String },
}

pub enum ParseErrorView {
    FieldCount { found: nat, input: Seq<char> },
    InvalidKind { kind: Seq<char> },
    UnknownKind { kind: Seq<char> },
}

impl View for AdHocParseError {
    type V = ParseErrorView;

    open spec fn view(&self) -> ParseErrorView {
        match self {
            AdHocParseError::FieldCount { found, input } => ParseErrorView::FieldCount {
                found: *found as nat,
                input: input@,
            },
            AdHocParseError::InvalidKind { kind } => ParseErrorView::InvalidKind { kind: kind@ },
            AdHocParseError::UnknownKind { kind } => ParseErrorView::UnknownKind { kind: kind@ },
        }
    }
}

impl ParseErrorView {
    /// The message of the error.
    pub open spec fn message(self) -> Seq<char> {
        match self {
            ParseErrorView::FieldCount { found, input } =>
                "Invalid ad-hoc format: expected 3 fields, got "@ + decimal(found) + ". Input: '"@
                    + input + "'"@,
            ParseErrorView::InvalidKind { kind } => "Invalid symbol kind: '"@ + kind + "'"@,
            ParseErrorView::UnknownKind { kind } => "Unknown symbol kind: '"@ + kind + "'"@,
        }
    }
}

impl AdHocParseError {
    pub fn to_string(&self) -> (r: String)
        ensures
            r@ == self@.message(),
    {
        match self {
            AdHocParseError::FieldCount { found, input } => {
                let mut out = chars_of("Invalid ad-hoc format: expected 3 fields, got ");
                append_chars(&mut out, &decimal_chars(*found));
                append_chars(&mut out, &chars_of(". Input: '"));
                append_chars(&mut out, &chars_of(input.as_str()));
                append_chars(&mut out, &chars_of("'"));
                string_of(&out)
            },
            AdHocParseError::InvalidKind { kind } => {
                let mut out = chars_of("Invalid symbol kind: '");
                append_chars(&mut out, &chars_of(kind.as_str()));
                append_chars(&mut out, &chars_of("'"));
                string_of(&out)
            },
            AdHocParseError::UnknownKind { kind } => {
                let mut out = chars_of("Unknown symbol kind: '");
                append_chars(&mut out, &chars_of(kind.as_str()));
                append_chars(&mut out, &chars_of("'"));
                string_of(&out)
            },
        }
    }
}

/// What an encoded node parses to: a node of the three fields alone, or the
/// reason why the string is none.
pub open spec fn parsed(raw: Seq<char>) -> Result<NodeView, ParseErrorView> {
    let parts = fields(raw);
    if parts.len() != 3 {
        Err(ParseErrorView::FieldCount { found: parts.len(), input: raw })
    } else {
        match kind_named(ascii_lowercase(parts[2])) {
            Some(kind) => Ok(
                NodeView {
                    id: unescaped(parts[0]),
                    name: unescaped(parts[1]),
                    kind,
                    parent_id: None,
                    documentation: None,
                    signature: None,
                    logic: None,
                },
            ),
            None => Err(ParseErrorView::InvalidKind { kind: parts[2] }),
        }
    }
}

/// The encodings of the first `n` nodes.
pub open spec fn serialized_all(nodes: Seq<NodeView>) -> Seq<Seq<char>> {
    nodes.map_values(|n: NodeView| serialized(n))
}

/// The encoded form of a graph: each definition encoded, the edges in
/// adjacency form.
pub open spec fn written_graph(g: GraphView) -> AdHocView {
    AdHocView {
        metadata: g.metadata,
        definitions: serialized_all(g.definitions),
        adjacency: crate::adjacency::adjacency_of(g.references, g.references.len()),
    }
}

/// Writes nodes in the pipe-delimited encoding.
pub struct AdHocSerializer;

impl AdHocSerializer {
    /// Writes a node as `id|name|kind`.
    pub fn serialize_node(node: &SymbolNode) -> (r: String)
        ensures
            r@ == serialized(node@),
    {
        let id = escape_pipes(node.id.as_str());
        let name = escape_pipes(node.name.as_str());
        join_three(id.as_str(), name.as_str(), kind_str(&node.kind))
    }

    /// Writes a graph: each definition encoded, the edges in adjacency
    /// form.
    pub fn serialize_graph(graph: &YcgGraph) -> (r: YcgGraphAdHoc)
        ensures
            r@ == written_graph(graph@),
            crate::adjacency::entries_sorted(r@.adjacency),
            crate::adjacency::all_targets_sorted(r@.adjacency),
    {
        let mut definitions: Vec<String> = Vec::new();
        let mut i: usize = 0;
        while i < graph.definitions.len()
            invariant
                i <= graph.definitions.len(),
                texts(definitions@) == serialized_all(
                    node_views(graph.definitions@.take(i as int)),
                ),
            decreases graph.definitions.len() - i,
        {
            let s = Self::serialize_node(&graph.definitions[i]);
            proof {
                lemma_texts_push(definitions@, s);
                assert(graph.definitions@.take(i + 1) == graph.definitions@.take(i as int).push(
                    graph.definitions@[i as int],
                ));
                lemma_node_views_push(
                    graph.definitions@.take(i as int),
                    graph.definitions@[i as int],
                );
                assert(serialized_all(
                    node_views(graph.definitions@.take(i as int)).push(
                        graph.definitions@[i as int]@,
                    ),
                ) =~= serialized_all(node_views(graph.definitions@.take(i as int))).push(
                    serialized(graph.definitions@[i as int]@),
                ));
            }
            definitions.push(s);
            i += 1;
        }
        assert(graph.definitions@.take(graph.definitions.len() as int) == graph.definitions@);
        let adjacency = AdjacencyGraph::from_edges(&graph.references);
        YcgGraphAdHoc { metadata: graph.metadata.copy(), definitions, adjacency }
    }
}

/// Reads nodes back from the pipe-delimited encoding.
pub struct AdHocParser;

impl AdHocParser {
    /// Reads `id|name|kind` back into a node. The string must have three
    /// fields, the third the name of a kind.
    pub fn parse_node(raw: &str) -> (r: Result<SymbolNode, AdHocParseError>)
        ensures
            match r {
                Ok(node) => parsed(raw@) == Ok::<NodeView, ParseErrorView>(node@),
                Err(e) => parsed(raw@) == Err::<NodeView, ParseErrorView>(e@),
            },
    {
        let parts = split_fields_of(raw);
        if parts.len() != 3 {
            return Err(AdHocParseError::FieldCount { found: parts.len(), input: raw.to_string() });
        }
        match kind_of_name(parts[2].as_str()) {
            Some(kind) => Ok(
                SymbolNode {
                    id: unescape_pipes(parts[0].as_str()),
                    name: unescape_pipes(parts[1].as_str()),
                    kind,
                    parent_id: None,
                    documentation: None,
                    signature: None,
                    logic: None,
                },
            ),
            None => Err(AdHocParseError::InvalidKind { kind: parts[2].clone() }),
        }
    }
}


/// What the first `n` encoded definitions parse to: the nodes, or the error
/// of the first that is no encoded node.
pub open spec fn parsed_all(defs: Seq<Seq<char>>, n: nat) -> Result<Seq<NodeView>, ParseErrorView>
    decreases n,
{
    if n == 0 {
        Ok(Seq::empty())
    } else {
        match parsed_all(defs, (n - 1) as nat) {
            Ok(nodes) => match parsed(defs[n - 1]) {
                Ok(node) => Ok(nodes.push(node)),
                Err(e) => Err(e),
            },
            Err(e) => Err(e),
        }
    }
}

/// What an encoded graph parses to.
pub open spec fn parsed_graph(adhoc: AdHocView) -> Result<GraphView, ParseErrorView> {
    match parsed_all(adhoc.definitions, adhoc.definitions.len()) {
        Ok(nodes) => Ok(
            GraphView {
                metadata: adhoc.metadata,
                definitions: nodes,
                references: crate::ordering::sorted_edges(
                    crate::adjacency::flat_edges(adhoc.adjacency),
                    crate::adjacency::flat_edges(adhoc.adjacency).len(),
                ),
            },
        ),
        Err(e) => Err(e),
    }
}

impl AdHocParser {
    /// Reads an encoded graph back: each definition parsed, the adjacency
    /// written out as a sorted list of edges.
    pub fn parse_graph(adhoc: &YcgGraphAdHoc) -> (r: Result<YcgGraph, AdHocParseError>)
        ensures
            match r {
                Ok(g) => parsed_graph(adhoc@) == Ok::<GraphView, ParseErrorView>(g@)
                    && crate::ordering::edges_ordered(g@.references),
                Err(e) => parsed_graph(adhoc@) == Err::<GraphView, ParseErrorView>(e@),
            },
    {
        let mut definitions: Vec<SymbolNode> = Vec::new();
        let mut i: usize = 0;
        assert(node_views(definitions@) =~= Seq::<NodeView>::empty());
        while i < adhoc.definitions.len()
            invariant
                i <= adhoc.definitions.len(),
                parsed_all(texts(adhoc.definitions@), i as nat) == Ok::<
                    Seq<NodeView>,
                    ParseErrorView,
                >(node_views(definitions@)),
            decreases adhoc.definitions.len() - i,
        {
            match Self::parse_node(adhoc.definitions[i].as_str()) {
                Ok(node) => {
                    proof {
                        lemma_node_views_push(definitions@, node);
                    }
                    definitions.push(node);
                },
                Err(e) => {
                    proof {
                        lemma_parsed_all_fails(
                            texts(adhoc.definitions@),
                            (i + 1) as nat,
                            adhoc.definitions@.len(),
                        );
                    }
                    return Err(e);
                },
            }
            i += 1;
        }
        let flat = adhoc.adjacency.to_edges();
        let references = crate::ordering::sort_edges(flat);
        Ok(YcgGraph { metadata: adhoc.metadata.copy(), definitions, references })
    }
}

/// Once a definition fails to parse, the error stays.
pub proof fn lemma_parsed_all_fails(defs: Seq<Seq<char>>, k: nat, n: nat)
    requires
        k <= n,
        parsed_all(defs, k).is_err(),
    ensures
        parsed_all(defs, n) == parsed_all(defs, k),
    decreases n,
{
    if n > k {
        lemma_parsed_all_fails(defs, k, (n - 1) as nat);
    }
}


/// What a character is written as: `\|` for `|`, itself otherwise.
pub open spec fn escaped_char(c: char) -> Seq<char> {
    if c == '|' {
        seq!['\\', '|']
    } else {
        seq![c]
    }
}

/// Escaping works character by character.
pub proof fn lemma_escaped_unfold(x: Seq<char>)
    requires
        x.len() > 0,
    ensures
        escaped(x) == escaped_char(x[0]) + escaped(x.skip(1)),
{
    reveal_strlit("|");
    reveal_strlit("\\|");
    assert("|"@ =~= seq!['|']);
    assert("\\|"@ =~= seq!['\\', '|']);
    if x[0] == '|' {
        assert(x.subrange(0, 1) =~= seq!['|']);
    } else {
        assert(x.subrange(0, 1)[0] == x[0]);
    }
}

/// An escaped text is empty only where the text is, never begins with `|`,
/// ends as the text ends, and holds no separator.
pub proof fn lemma_escaped(x: Seq<char>)
    ensures
        x.len() == 0 ==> escaped(x).len() == 0,
        x.len() > 0 ==> escaped(x).len() > 0 && escaped(x)[0] != '|' && escaped(x).last()
            == x.last(),
        separator_count(escaped(x)) == 0,
    decreases x.len(),
{
    reveal_strlit("|");
    if x.len() == 0 {
        assert(escaped(x) =~= Seq::<char>::empty());
    } else {
        let rest = x.skip(1);
        lemma_escaped_unfold(x);
        lemma_escaped(rest);
        let head = escaped_char(x[0]);
        let tail = escaped(rest);
        assert(escaped(x) == head + tail);
        if rest.len() > 0 {
            assert(rest.last() == x.last());
        } else {
            assert(tail.len() == 0);
            assert(head + tail =~= head);
        }
        lemma_separator_count_short(head);
        lemma_separator_count_concat(head, tail);
    }
}

proof fn lemma_separator_count_short(head: Seq<char>)
    requires
        head.len() == 1 && head[0] != '|' || head == seq!['\\', '|'],
    ensures
        separator_count(head) == 0,
{
    if head.len() == 1 {
        assert(separator_count(head.drop_last()) == 0);
    } else {
        let h1 = head.drop_last();
        assert(h1.len() == 1 && h1[0] == '\\');
        assert(separator_count(h1.drop_last()) == 0);
        assert(separator_count(h1) == 0);
        assert(!separator_at(head, 1));
    }
}

/// The separators of two texts set one after the other are those of each,
/// unless the first ends in a backslash and the second begins with `|`.
pub proof fn lemma_separator_count_concat(a: Seq<char>, b: Seq<char>)
    requires
        !(a.len() > 0 && b.len() > 0 && a.last() == '\\' && b[0] == '|'),
    ensures
        separator_count(a + b) == separator_count(a) + separator_count(b),
    decreases b.len(),
{
    if b.len() == 0 {
        assert(a + b =~= a);
    } else {
        let s = a + b;
        assert(s.drop_last() =~= a + b.drop_last());
        lemma_separator_count_concat(a, b.drop_last());
        assert(s.last() == b.last());
        if b.len() >= 2 {
            assert(s[s.len() - 2] == b[b.len() - 2]);
        } else if a.len() > 0 {
            assert(s[s.len() - 2] == a.last());
        }
    }
}

/// A text without separator is one field.
pub proof fn lemma_fields_single(x: Seq<char>)
    requires
        separator_count(x) == 0,
    ensures
        fields(x) == seq![x],
    decreases x.len(),
{
    if x.len() == 0 {
        assert(x =~= Seq::<char>::empty());
    } else {
        lemma_fields_single(x.drop_last());
        assert(x.drop_last().push(x.last()) =~= x);
        let p = seq![x.drop_last()];
        assert(p.drop_last() =~= Seq::<Seq<char>>::empty());
        assert(p.drop_last().push(p.last().push(x.last())) =~= seq![x]);
    }
}

/// Two texts joined by `|`, the first not ending in a backslash, have the
/// fields of the first and then those of the second.
pub proof fn lemma_fields_concat(a: Seq<char>, b: Seq<char>)
    requires
        a.len() == 0 || a.last() != '\\',
    ensures
        fields(a + seq!['|'] + b) == fields(a) + fields(b),
    decreases b.len(),
{
    let s = a + seq!['|'] + b;
    lemma_field_count(a);
    lemma_field_count(b);
    if b.len() == 0 {
        assert(s.drop_last() =~= a);
        assert(separator_at(s, s.len() - 1));
        assert(fields(b) =~= seq![Seq::<char>::empty()]);
        assert(fields(a).push(Seq::<char>::empty()) =~= fields(a) + fields(b));
    } else {
        let b1 = b.drop_last();
        assert(s.drop_last() =~= a + seq!['|'] + b1);
        lemma_fields_concat(a, b1);
        lemma_field_count(b1);
        assert(s.last() == b.last());
        if b.len() >= 2 {
            assert(s[s.len() - 2] == b[b.len() - 2]);
        } else {
            assert(s[s.len() - 2] == '|');
        }
        assert(separator_at(s, s.len() - 1) == separator_at(b, b.len() - 1));
        let p = fields(a) + fields(b1);
        if separator_at(b, b.len() - 1) {
            assert(p.push(Seq::<char>::empty()) =~= fields(a) + fields(b1).push(
                Seq::<char>::empty(),
            ));
        } else {
            assert(p.last() == fields(b1).last());
            assert(p.drop_last().push(p.last().push(b.last())) =~= fields(a) + fields(
                b1,
            ).drop_last().push(fields(b1).last().push(b.last())));
        }
    }
}

/// Unescaping undoes escaping.
pub proof fn lemma_unescape_escape(x: Seq<char>)
    ensures
        unescaped(escaped(x)) == x,
    decreases x.len(),
{
    reveal_strlit("|");
    reveal_strlit("\\|");
    assert("|"@ =~= seq!['|']);
    assert("\\|"@ =~= seq!['\\', '|']);
    if x.len() == 0 {
        lemma_escaped(x);
        assert(escaped(x) =~= Seq::<char>::empty());
        assert(x =~= Seq::<char>::empty());
    } else {
        let rest = x.skip(1);
        lemma_escaped_unfold(x);
        lemma_unescape_escape(rest);
        lemma_escaped(rest);
        let e = escaped(x);
        let tail = escaped(rest);
        if x[0] == '|' {
            assert(e =~= seq!['\\', '|'] + tail);
            assert(e.subrange(0, 2) =~= seq!['\\', '|']);
            assert(e.skip(2) =~= tail);
            assert(unescaped(e) == seq!['|'] + unescaped(tail));
            assert(seq!['|'] + rest =~= x);
        } else {
            assert(e =~= seq![x[0]] + tail);
            assert(e.skip(1) =~= tail);
            if e.len() >= 2 {
                assert(e.subrange(0, 2)[1] == tail[0]);
                assert(e.subrange(0, 2) != seq!['\\', '|']);
                assert(unescaped(e) == seq![e[0]] + unescaped(tail));
            } else {
                assert(tail.len() == 0);
                assert(rest.len() == 0);
                assert(unescaped(e) == e);
            }
            assert(seq![x[0]] + rest =~= x);
        }
    }
}

/// The name of a kind reads back as that kind.
pub proof fn lemma_kind_round_trip(kind: ScipSymbolKind)
    ensures
        kind_named(ascii_lowercase(kind_name(kind))) == Some(kind),
        kind_name(kind).len() > 0,
        kind_name(kind).last() != '\\',
        separator_count(kind_name(kind)) == 0,
{
    reveal_strlit("file");
    reveal_strlit("module");
    reveal_strlit("class");
    reveal_strlit("method");
    reveal_strlit("function");
    reveal_strlit("variable");
    reveal_strlit("interface");
    let n = kind_name(kind);
    assert(ascii_lowercase(n) =~= n);
    lemma_no_pipe_no_separator(n);
}

/// A text without `|` holds no separator.
pub proof fn lemma_no_pipe_no_separator(x: Seq<char>)
    requires
        forall|i: int| 0 <= i < x.len() ==> x[i] != '|',
    ensures
        separator_count(x) == 0,
    decreases x.len(),
{
    if x.len() > 0 {
        lemma_no_pipe_no_separator(x.drop_last());
    }
}

/// Whether a text ends in a backslash.
pub open spec fn ends_in_backslash(x: Seq<char>) -> bool {
    x.len() > 0 && x.last() == '\\'
}

/// Three escaped fields, none of the first two ending in a backslash, the
/// third without `|`, are read back as those three fields and hold two
/// separators.
pub proof fn lemma_three_fields(a: Seq<char>, b: Seq<char>, c: Seq<char>)
    requires
        !ends_in_backslash(a),
        !ends_in_backslash(b),
        separator_count(c) == 0,
    ensures
        fields(three_fields(escaped(a), escaped(b), c)) == seq![escaped(a), escaped(b), c],
        separator_count(three_fields(escaped(a), escaped(b), c)) == 2,
{
    let ea = escaped(a);
    let eb = escaped(b);
    lemma_escaped(a);
    lemma_escaped(b);
    lemma_fields_single(ea);
    lemma_fields_single(eb);
    lemma_fields_single(c);
    let bc = eb + seq!['|'] + c;
    lemma_fields_concat(eb, c);
    assert(fields(bc) =~= seq![eb, c]);
    lemma_fields_concat(ea, bc);
    assert(ea + seq!['|'] + bc =~= three_fields(ea, eb, c));
    assert(fields(three_fields(ea, eb, c)) =~= seq![ea, eb, c]);
    lemma_field_count(three_fields(ea, eb, c));
}

/// Reading an encoded node gives back its id, its name and its kind,
/// whatever `|` they hold, provided that neither the id nor the name ends
/// in a backslash. The other parts of a node are not written and come back
/// empty.
pub proof fn lemma_round_trip(node: NodeView)
    requires
        !ends_in_backslash(node.id),
        !ends_in_backslash(node.name),
    ensures
        parsed(serialized(node)) == Ok::<NodeView, ParseErrorView>(
            NodeView {
                id: node.id,
                name: node.name,
                kind: node.kind,
                parent_id: None,
                documentation: None,
                signature: None,
                logic: None,
            },
        ),
{
    lemma_kind_round_trip(node.kind);
    lemma_three_fields(node.id, node.name, kind_name(node.kind));
    lemma_unescape_escape(node.id);
    lemma_unescape_escape(node.name);
}

/// What is written of a node: its id, its name and its kind.
pub open spec fn written_part(node: NodeView) -> NodeView {
    NodeView {
        id: node.id,
        name: node.name,
        kind: node.kind,
        parent_id: None,
        documentation: None,
        signature: None,
        logic: None,
    }
}

/// Whether neither the id nor the name of any of the nodes ends in a
/// backslash.
pub open spec fn all_readable(nodes: Seq<NodeView>) -> bool {
    forall|i: int|
        0 <= i < nodes.len() ==> !ends_in_backslash((#[trigger] nodes[i]).id) && !ends_in_backslash(
            nodes[i].name,
        )
}

/// Reading the encodings of nodes gives back what is written of each.
pub proof fn lemma_round_trip_all(nodes: Seq<NodeView>, n: nat)
    requires
        n <= nodes.len(),
        all_readable(nodes),
    ensures
        parsed_all(serialized_all(nodes), n) == Ok::<Seq<NodeView>, ParseErrorView>(
            nodes.take(n as int).map_values(|x: NodeView| written_part(x)),
        ),
    decreases n,
{
    let back = nodes.take(n as int).map_values(|x: NodeView| written_part(x));
    if n == 0 {
        assert(back =~= Seq::<NodeView>::empty());
    } else {
        lemma_round_trip_all(nodes, (n - 1) as nat);
        lemma_round_trip(nodes[n - 1]);
        let before = nodes.take(n - 1).map_values(|x: NodeView| written_part(x));
        assert(serialized_all(nodes)[n - 1] == serialized(nodes[n - 1]));
        assert(before.push(written_part(nodes[n - 1])) =~= back);
    }
}

/// Reading a written graph gives back its metadata, what is written of
/// each node, and its edges in order, each as often as the graph holds it:
/// provided that neither the id nor the name of any node ends in a
/// backslash.
pub proof fn lemma_graph_round_trip(g: GraphView)
    requires
        all_readable(g.definitions),
    ensures
        parsed_graph(written_graph(g)) matches Ok(back) && back.metadata == g.metadata
            && back.definitions == g.definitions.map_values(|x: NodeView| written_part(x))
            && back.references.to_multiset() == g.references.to_multiset()
            && crate::ordering::edges_ordered(back.references),
{
    lemma_round_trip_all(g.definitions, g.definitions.len());
    assert(g.definitions.take(g.definitions.len() as int) =~= g.definitions);
    assert(serialized_all(g.definitions).len() == g.definitions.len());
    crate::adjacency_laws::lemma_edges_round_trip(g.references);
}

} // verus!
