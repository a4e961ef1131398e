//! Removal of framework boilerplate: constructors that only inject
//! dependencies, and decorators on the properties of data-transfer objects.

use vstd::hash_set::StringHashSet;
use vstd::prelude::*;
use crate::model::{
    copy_string, edge_views, lemma_edge_views_push, lemma_node_views_push, node_views, opt_text,
    EdgeView, GraphView, NodeView, ReferenceEdge, ScipSymbolKind, SymbolNode, YcgGraph,
};
use crate::text::{
    chars_of, contains_lit, contains_sub, ends_with_lit, has_char, last_index, lemma_last_index,
    rfind_char, slice_of, string_of, trim, trim_chars,
};

verus! {

/// Whether the regular expression `pattern` matches somewhere in `text`;
/// nothing where `pattern` is no regular expression.
pub uninterp spec fn regex_match(pattern: Seq<char>, text: Seq<char>) -> Option<bool>;

/// `text` with every match of the regular expression `pattern` replaced by
/// `replacement`; nothing where `pattern` is no regular expression.
pub uninterp spec fn regex_replaced(
    pattern: Seq<char>,
    text: Seq<char>,
    replacement: Seq<char>,
) -> Option<Seq<char>>;

/// `regex::Regex::new` and `Regex::is_match`: whether the compiled pattern
/// matches is a function of the pattern and the text alone.
#[verifier::external_body]
fn regex_is_match(pattern: &str, text: &str) -> (r: Option<bool>)
    ensures
        r == regex_match(pattern@, text@),
{
    match regex::Regex::new(pattern) {
        Ok(re) => Some(re.is_match(text)),
        Err(_) => None,
    }
}

/// `regex::Regex::new` and `Regex::replace_all`: the text after the
/// replacement is a function of the pattern, the text and the replacement
/// alone.
#[verifier::external_body]
fn regex_replace_all(pattern: &str, text: &str, replacement: &str) -> (r: Option<String>)
    ensures
        opt_text(r) == regex_replaced(pattern@, text@, replacement@),
{
    match regex::Regex::new(pattern) {
        Ok(re) => Some(re.replace_all(text, replacement).into_owned()),
        Err(_) => None,
    }
}

/// The shape of a constructor with an access modifier among its
/// parameters.
pub open spec fn injection_pattern() -> Seq<char> {
    "constructor\\s*\\([^)]*\\b(private|public|protected|readonly)\\s+\\w+"@
}

/// The shape of a decorator, with its arguments and the white space after
/// it.
pub open spec fn decorator_pattern() -> Seq<char> {
    "@\\w+(\\([^)]*\\))?\\s*"@
}

/// Whether a signature carries a body with logic in it: a `{` and one of
/// `if `, `for `, `while `, `switch `, `return `, `throw `, `await `, `=>`.
pub open spec fn has_complex_logic(sig: Seq<char>) -> bool {
    sig.contains('{') && (contains_sub(sig, "if "@) || contains_sub(sig, "for "@) || contains_sub(
        sig,
        "while "@,
    ) || contains_sub(sig, "switch "@) || contains_sub(sig, "return "@) || contains_sub(
        sig,
        "throw "@,
    ) || contains_sub(sig, "await "@) || contains_sub(sig, "=>"@))
}

/// Whether a node is a constructor that only injects dependencies: its
/// name is `constructor`, its signature has an access modifier among the
/// parameters and no logic.
pub open spec fn injects_only(node: NodeView) -> bool {
    node.name == "constructor"@ && (match node.signature {
        Some(sig) => regex_match(injection_pattern(), sig) == Some(true) && !has_complex_logic(
            sig,
        ),
        None => false,
    })
}

/// `text` without its decorators and without the white space around what
/// is left.
pub open spec fn without_decorators(text: Seq<char>) -> Seq<char> {
    match regex_replaced(decorator_pattern(), text, ""@) {
        Some(t) => trim(t),
        None => trim(text),
    }
}

/// A text with a `@` in it loses its decorators; any other text stays.
pub open spec fn simplified_text(text: Option<Seq<char>>) -> Option<Seq<char>> {
    match text {
        Some(t) => if t.contains('@') {
            Some(without_decorators(t))
        } else {
            Some(t)
        },
        None => None,
    }
}

/// The node with its signature and its documentation simplified.
pub open spec fn simplified(node: NodeView) -> NodeView {
    NodeView {
        signature: simplified_text(node.signature),
        documentation: simplified_text(node.documentation),
        ..node
    }
}

/// Whether the filter removes the node itself.
pub open spec fn removable(node: NodeView) -> bool {
    node.kind == ScipSymbolKind::Method && injects_only(node)
}

/// The node as the filter leaves it, if it is kept: a node with a parent
/// and a signature is simplified.
pub open spec fn cleaned(node: NodeView) -> NodeView {
    if !removable(node) && node.parent_id.is_some() && node.signature.is_some() {
        simplified(node)
    } else {
        node
    }
}

/// The ids of the nodes, among the first `n`, that the filter removes.
pub open spec fn removed_ids(nodes: Seq<NodeView>, n: nat) -> Set<Seq<char>>
    decreases n,
{
    if n == 0 {
        Set::empty()
    } else if removable(nodes[n - 1]) {
        removed_ids(nodes, (n - 1) as nat).insert(nodes[n - 1].id)
    } else {
        removed_ids(nodes, (n - 1) as nat)
    }
}

/// The nodes, among the first `n`, that are kept, each cleaned. A node is
/// kept unless its id is the id of a removed node.
pub open spec fn kept_nodes(nodes: Seq<NodeView>, removed: Set<Seq<char>>, n: nat) -> Seq<NodeView>
    decreases n,
{
    if n == 0 {
        Seq::empty()
    } else if removed.contains(nodes[n - 1].id) {
        kept_nodes(nodes, removed, (n - 1) as nat)
    } else {
        kept_nodes(nodes, removed, (n - 1) as nat).push(cleaned(nodes[n - 1]))
    }
}

/// The edges, among the first `n`, that touch no removed node.
pub open spec fn kept_edges(edges: Seq<EdgeView>, removed: Set<Seq<char>>, n: nat) -> Seq<EdgeView>
    decreases n,
{
    if n == 0 {
        Seq::empty()
    } else if removed.contains(edges[n - 1].from) || removed.contains(edges[n - 1].to) {
        kept_edges(edges, removed, (n - 1) as nat)
    } else {
        kept_edges(edges, removed, (n - 1) as nat).push(edges[n - 1])
    }
}

/// The graph after the filter.
pub open spec fn filtered(g: GraphView) -> GraphView {
    let removed = removed_ids(g.definitions, g.definitions.len());
    GraphView {
        metadata: g.metadata,
        definitions: kept_nodes(g.definitions, removed, g.definitions.len()),
        references: kept_edges(g.references, removed, g.references.len()),
    }
}

/// A path without what stands after its last name: every trailing `/`, and
/// every trailing `.` that is a component of its own.
pub open spec fn named_part(path: Seq<char>) -> Seq<char>
    decreases path.len(),
{
    if path.len() >= 1 && path.last() == '/' {
        named_part(path.drop_last())
    } else if path.len() >= 2 && path.last() == '.' && path[path.len() - 2] == '/' {
        named_part(path.drop_last())
    } else {
        path
    }
}

/// The file name of a path: what follows the last `/` of its named part.
pub open spec fn file_name(path: Seq<char>) -> Seq<char> {
    let p = named_part(path);
    p.skip(last_index(p, '/') + 1)
}

/// Whether a path is that of a data-transfer object: it holds `/dto/`, or
/// its file name ends in `.dto.ts`.
pub open spec fn dto_path(path: Seq<char>) -> bool {
    contains_sub(path, "/dto/"@) || ".dto.ts"@.is_suffix_of(file_name(path))
}

/// Removes framework boilerplate from graphs.
pub struct FrameworkNoiseFilter;

impl FrameworkNoiseFilter {
    /// Removes the constructors that only inject dependencies, with the
    /// edges that touch them, and simplifies the signature and the
    /// documentation of every other node that has a parent and a signature.
    pub fn filter_graph(graph: &mut YcgGraph)
        ensures
            final(graph)@ == filtered(old(graph)@),
    {
        let ghost nodes = node_views(graph.definitions@);
        let ghost edges = edge_views(graph.references@);
        let mut removed = StringHashSet::new();
        let mut i: usize = 0;
        while i < graph.definitions.len()
            invariant
                i <= graph.definitions.len(),
                graph.definitions@ == old(graph).definitions@,
                nodes == node_views(graph.definitions@),
                removed@ == removed_ids(nodes, i as nat),
            decreases graph.definitions.len() - i,
        {
            let node = &graph.definitions[i];
            assert(nodes[i as int] == node@);
            if node.kind == ScipSymbolKind::Method && Self::is_di_only_constructor(node) {
                let _ = removed.insert(copy_string(&node.id));
            }
            i += 1;
        }
        let mut definitions: Vec<SymbolNode> = Vec::new();
        let mut k: usize = 0;
        assert(node_views(definitions@) =~= Seq::<NodeView>::empty());
        while k < graph.definitions.len()
            invariant
                k <= graph.definitions.len(),
                graph.definitions@ == old(graph).definitions@,
                nodes == node_views(graph.definitions@),
                node_views(definitions@) == kept_nodes(nodes, removed@, k as nat),
            decreases graph.definitions.len() - k,
        {
            let node = &graph.definitions[k];
            assert(nodes[k as int] == node@);
            if !removed.contains(node.id.as_str()) {
                let mut n = node.copy();
                let is_removable = n.kind == ScipSymbolKind::Method && Self::is_di_only_constructor(
                    &n,
                );
                if !is_removable && n.parent_id.is_some() && n.signature.is_some() {
                    Self::simplify_dto_property(&mut n);
                }
                proof {
                    lemma_node_views_push(definitions@, n);
                }
                definitions.push(n);
            }
            k += 1;
        }
        let mut references: Vec<ReferenceEdge> = Vec::new();
        let mut j: usize = 0;
        assert(edge_views(references@) =~= Seq::<EdgeView>::empty());
        while j < graph.references.len()
            invariant
                j <= graph.references.len(),
                graph.references@ == old(graph).references@,
                edges == edge_views(graph.references@),
                edge_views(references@) == kept_edges(edges, removed@, j as nat),
            decreases graph.references.len() - j,
        {
            let e = &graph.references[j];
            assert(edges[j as int] == e@);
            if !removed.contains(e.from.as_str()) && !removed.contains(e.to.as_str()) {
                let c = e.copy();
                proof {
                    lemma_edge_views_push(references@, c);
                }
                references.push(c);
            }
            j += 1;
        }
        graph.definitions = definitions;
        graph.references = references;
    }

    /// Whether a node is a constructor that only injects dependencies.
    pub fn is_di_only_constructor(node: &SymbolNode) -> (r: bool)
        ensures
            r == injects_only(node@),
    {
        if !crate::ordering::string_eq(node.name.as_str(), "constructor") {
            return false;
        }
        let signature = match &node.signature {
            Some(sig) => sig,
            None => {
                return false;
            },
        };
        let matched = regex_is_match(
            "constructor\\s*\\([^)]*\\b(private|public|protected|readonly)\\s+\\w+",
            signature.as_str(),
        );
        match matched {
            Some(true) => {},
            _ => {
                return false;
            },
        }
        let v = chars_of(signature.as_str());
        let complex = has_char(&v, '{') && (contains_lit(&v, "if ") || contains_lit(&v, "for ")
            || contains_lit(&v, "while ") || contains_lit(&v, "switch ") || contains_lit(
            &v,
            "return ",
        ) || contains_lit(&v, "throw ") || contains_lit(&v, "await ") || contains_lit(&v, "=>"));
        !complex
    }

    /// Whether a path is that of a data-transfer object.
    pub fn is_dto_file(file_path: &str) -> (r: bool)
        ensures
            r == dto_path(file_path@),
    {
        let v = chars_of(file_path);
        if contains_lit(&v, "/dto/") {
            return true;
        }
        let mut n: usize = v.len();
        assert(v@.take(n as int) == v@);
        loop
            invariant
                n <= v.len(),
                named_part(v@) == named_part(v@.take(n as int)),
            ensures
                n <= v.len(),
                named_part(v@) == v@.take(n as int),
            decreases n,
        {
            let ghost cur = v@.take(n as int);
            if n >= 1 && v[n - 1] == '/' {
                assert(cur.drop_last() == v@.take(n - 1));
                n -= 1;
            } else if n >= 2 && v[n - 1] == '.' && v[n - 2] == '/' {
                assert(cur.drop_last() == v@.take(n - 1));
                n -= 1;
            } else {
                break ;
            }
        }
        let p = slice_of(&v, 0, n);
        let start: usize = match rfind_char(&p, '/') {
            Some(i) => i + 1,
            None => 0,
        };
        proof {
            lemma_last_index(p@, '/');
        }
        let name = slice_of(&p, start, p.len());
        assert(name@ == p@.skip(start as int));
        ends_with_lit(&name, ".dto.ts")
    }

    /// Takes the decorators out of a signature, and the white space around
    /// what is left.
    pub fn strip_decorators(signature: &str) -> (r: String)
        ensures
            r@ == without_decorators(signature@),
    {
        let replaced = regex_replace_all("@\\w+(\\([^)]*\\))?\\s*", signature, "");
        let v = match replaced {
            Some(t) => chars_of(t.as_str()),
            None => chars_of(signature),
        };
        string_of(&trim_chars(&v))
    }

    /// Takes the decorators out of the signature and the documentation of
    /// a node.
    pub fn simplify_dto_property(node: &mut SymbolNode)
        ensures
            final(node)@ == simplified(old(node)@),
    {
        let mut new_signature: Option<String> = None;
        match &node.signature {
            Some(signature) => {
                if has_char(&chars_of(signature.as_str()), '@') {
                    new_signature = Some(Self::strip_decorators(signature.as_str()));
                }
            },
            None => {},
        }
        match new_signature {
            Some(s) => {
                node.signature = Some(s);
            },
            None => {},
        }
        let mut new_documentation: Option<String> = None;
        match &node.documentation {
            Some(doc) => {
                if has_char(&chars_of(doc.as_str()), '@') {
                    new_documentation = Some(Self::strip_decorators(doc.as_str()));
                }
            },
            None => {},
        }
        match new_documentation {
            Some(s) => {
                node.documentation = Some(s);
            },
            None => {},
        }
    }
}

} // verus!
