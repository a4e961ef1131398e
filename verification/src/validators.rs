//! Validation of what the codec writes: the number of fields of each
//! encoded definition, the grammar of the logic field, and the referential
//! integrity of the edges.

use vstd::hash_set::StringHashSet;
use vstd::prelude::*;
use crate::adhoc_format::{
    count_separators, fields, lemma_field_count, separator_count, split_fields, unescaped,
};
use crate::errors::{
    integrity_details, invalid_edge_texts, lemma_invalid_edge_texts_push, InvalidEdge,
    ValidationError,
};
use crate::model::{
    copy_string, edge_views, node_views, texts, AdHocGranularity, EdgeView, NodeView, ReferenceEdge,
    SymbolNode, YcgGraph, YcgGraphAdHoc, YcgGraphOptimized,
};
use crate::text::{
    append_chars, chars_of, decimal, decimal_chars, ends_with_lit, find_char, first_index,
    is_literal, push_str, replace_lit, seqs_of, slice_of, split_chars, split_on, starts_with_lit,
    string_of, trim, trim_chars,
};

verus! {

/// The ids of the first `n` definitions.
pub open spec fn ids_through(defs: Seq<NodeView>, n: nat) -> Set<Seq<char>>
    decreases n,
{
    if n == 0 {
        Set::empty()
    } else {
        ids_through(defs, (n - 1) as nat).insert(defs[n - 1].id)
    }
}

/// The ids of the definitions.
pub open spec fn node_ids(defs: Seq<NodeView>) -> Set<Seq<char>> {
    ids_through(defs, defs.len())
}

/// The id that an encoded definition carries: its first field, unescaped.
pub open spec fn encoded_id(def: Seq<char>) -> Seq<char> {
    unescaped(fields(def)[0])
}

/// The ids of the first `n` encoded definitions.
pub open spec fn encoded_ids_through(defs: Seq<Seq<char>>, n: nat) -> Set<Seq<char>>
    decreases n,
{
    if n == 0 {
        Set::empty()
    } else {
        encoded_ids_through(defs, (n - 1) as nat).insert(encoded_id(defs[n - 1]))
    }
}

/// The ids of the encoded definitions.
pub open spec fn encoded_ids(defs: Seq<Seq<char>>) -> Set<Seq<char>> {
    encoded_ids_through(defs, defs.len())
}

/// An id is among the ids of the definitions exactly if one of them
/// carries it.
pub proof fn lemma_node_ids(defs: Seq<NodeView>, n: nat, id: Seq<char>)
    requires
        n <= defs.len(),
    ensures
        ids_through(defs, n).contains(id) <==> exists|i: int|
            0 <= i < n && (#[trigger] defs[i]).id == id,
    decreases n,
{
    if n > 0 {
        lemma_node_ids(defs, (n - 1) as nat, id);
        if ids_through(defs, n).contains(id) {
            if defs[n - 1].id == id {
            } else {
                let i = choose|i: int| 0 <= i < n - 1 && (#[trigger] defs[i]).id == id;
                assert(0 <= i < n && defs[i].id == id);
            }
        }
        if exists|i: int| 0 <= i < n && (#[trigger] defs[i]).id == id {
            let i = choose|i: int| 0 <= i < n && (#[trigger] defs[i]).id == id;
            if i < n - 1 {
                assert(0 <= i < n - 1 && defs[i].id == id);
            }
        }
    }
}

/// The invalid edges among the first `n` edges, in order: those whose
/// source or target is not among `ids`.
pub open spec fn violations(ids: Set<Seq<char>>, edges: Seq<EdgeView>, n: nat) -> Seq<InvalidEdge>
    decreases n,
{
    if n == 0 {
        Seq::empty()
    } else {
        let prev = violations(ids, edges, (n - 1) as nat);
        let e = edges[n - 1];
        if !ids.contains(e.from) || !ids.contains(e.to) {
            prev.push((e.from, e.to, !ids.contains(e.from), !ids.contains(e.to)))
        } else {
            prev
        }
    }
}

/// All invalid edges.
pub open spec fn all_violations(ids: Set<Seq<char>>, edges: Seq<EdgeView>) -> Seq<InvalidEdge> {
    violations(ids, edges, edges.len())
}

/// What the check of the edges against the ids gives: success where no
/// edge is invalid, else the count of the invalid edges and the details of
/// the first five.
pub open spec fn integrity_holds(
    ids: Set<Seq<char>>,
    edges: Seq<EdgeView>,
    r: Result<(), ValidationError>,
) -> bool {
    match r {
        Ok(_) => all_violations(ids, edges).len() == 0,
        Err(e) => all_violations(ids, edges).len() > 0 && (e
            matches ValidationError::ReferentialIntegrityViolation { count, details } && count
            == all_violations(ids, edges).len() && details@ == integrity_details(
            all_violations(ids, edges),
        )),
    }
}

/// The invalid edges among the first `n` do not depend on later edges.
pub proof fn lemma_violations_prefix(
    ids: Set<Seq<char>>,
    a: Seq<EdgeView>,
    b: Seq<EdgeView>,
    n: nat,
)
    requires
        n <= a.len(),
        n <= b.len(),
        forall|i: int| 0 <= i < n ==> a[i] == b[i],
    ensures
        violations(ids, a, n) == violations(ids, b, n),
    decreases n,
{
    if n > 0 {
        lemma_violations_prefix(ids, a, b, (n - 1) as nat);
    }
}

/// A graph whose every edge has its source and its target among the ids
/// has no invalid edge.
pub proof fn lemma_no_dangling_edges(ids: Set<Seq<char>>, edges: Seq<EdgeView>, n: nat)
    requires
        n <= edges.len(),
        forall|i: int|
            0 <= i < edges.len() ==> ids.contains((#[trigger] edges[i]).from) && ids.contains(
                edges[i].to,
            ),
    ensures
        violations(ids, edges, n).len() == 0,
    decreases n,
{
    if n > 0 {
        lemma_no_dangling_edges(ids, edges, (n - 1) as nat);
    }
}

/// One more edge, with a known source and an unknown target, added to
/// edges without an invalid one, gives exactly one invalid edge: that one,
/// with its target marked unknown.
pub proof fn lemma_one_unknown_target(ids: Set<Seq<char>>, edges: Seq<EdgeView>, e: EdgeView)
    requires
        all_violations(ids, edges).len() == 0,
        ids.contains(e.from),
        !ids.contains(e.to),
    ensures
        all_violations(ids, edges.push(e)) == seq![(e.from, e.to, false, true)],
        all_violations(ids, edges.push(e)).len() == 1,
{
    lemma_violations_prefix(ids, edges, edges.push(e), edges.len());
    assert(violations(ids, edges, edges.len()) =~= Seq::<InvalidEdge>::empty());
    assert(all_violations(ids, edges.push(e)) =~= seq![(e.from, e.to, false, true)]);
}

fn collect_ids(defs: &Vec<SymbolNode>) -> (ids: StringHashSet)
    ensures
        ids@ == node_ids(node_views(defs@)),
{
    let mut ids = StringHashSet::new();
    let mut i: usize = 0;
    while i < defs.len()
        invariant
            i <= defs.len(),
            ids@ == ids_through(node_views(defs@), i as nat),
        decreases defs.len() - i,
    {
        let _ = ids.insert(copy_string(&defs[i].id));
        i += 1;
    }
    ids
}

fn collect_encoded_ids(defs: &Vec<String>) -> (ids: StringHashSet)
    ensures
        ids@ == encoded_ids(texts(defs@)),
{
    let mut ids = StringHashSet::new();
    let mut i: usize = 0;
    while i < defs.len()
        invariant
            i <= defs.len(),
            ids@ == encoded_ids_through(texts(defs@), i as nat),
        decreases defs.len() - i,
    {
        let v = chars_of(defs[i].as_str());
        let parts = split_fields(&v);
        proof {
            reveal_strlit("\\|");
            lemma_field_count(v@);
            assert(seqs_of(parts@)[0] == parts@[0]@);
        }
        let id = replace_lit(&parts[0], "\\|", "|");
        let _ = ids.insert(string_of(&id));
        i += 1;
    }
    ids
}

fn check_edges(ids: &StringHashSet, edges: &Vec<ReferenceEdge>) -> (r: Result<(), ValidationError>)
    ensures
        integrity_holds(ids@, edge_views(edges@), r),
{
    let mut invalid: Vec<(String, String, bool, bool)> = Vec::new();
    let mut i: usize = 0;
    assert(invalid_edge_texts(invalid@) =~= Seq::<InvalidEdge>::empty());
    while i < edges.len()
        invariant
            i <= edges.len(),
            invalid_edge_texts(invalid@) == violations(ids@, edge_views(edges@), i as nat),
        decreases edges.len() - i,
    {
        let e = &edges[i];
        assert(edge_views(edges@)[i as int] == e@);
        let from_valid = ids.contains(e.from.as_str());
        let to_valid = ids.contains(e.to.as_str());
        if !from_valid || !to_valid {
            let item = (copy_string(&e.from), copy_string(&e.to), !from_valid, !to_valid);
            proof {
                lemma_invalid_edge_texts_push(invalid@, item);
            }
            invalid.push(item);
        }
        i += 1;
    }
    if invalid.len() > 0 {
        Err(ValidationError::referential_integrity(invalid))
    } else {
        Ok(())
    }
}

/// Checks that every edge of the graph runs between definitions of the
/// graph.
pub fn validate_graph_integrity(graph: &YcgGraph) -> (r: Result<(), ValidationError>)
    ensures
        integrity_holds(node_ids(graph@.definitions), graph@.references, r),
{
    let ids = collect_ids(&graph.definitions);
    check_edges(&ids, &graph.references)
}

/// Checks that every edge of the adjacency runs between definitions of
/// the graph. The edges are taken in the order of the adjacency.
pub fn validate_graph_integrity_optimized(graph: &YcgGraphOptimized) -> (r: Result<
    (),
    ValidationError,
>)
    ensures
        integrity_holds(
            node_ids(graph@.definitions),
            crate::adjacency::flat_edges(graph@.adjacency),
            r,
        ),
{
    let ids = collect_ids(&graph.definitions);
    let edges = graph.adjacency.to_edges();
    check_edges(&ids, &edges)
}

/// Checks that every edge of the adjacency runs between ids that the
/// encoded definitions carry.
pub fn validate_graph_integrity_adhoc(graph: &YcgGraphAdHoc) -> (r: Result<(), ValidationError>)
    ensures
        integrity_holds(
            encoded_ids(graph@.definitions),
            crate::adjacency::flat_edges(graph@.adjacency),
            r,
        ),
{
    let ids = collect_encoded_ids(&graph.definitions);
    let edges = graph.adjacency.to_edges();
    check_edges(&ids, &edges)
}

/// Whether `k` is one of the five keywords.
pub open spec fn is_keyword(k: Seq<char>) -> bool {
    k == "check"@ || k == "action"@ || k == "return"@ || k == "match"@ || k == "get"@
}

/// The keyword of a trimmed step: what stands before its first `(`, or the
/// whole step where it has none. An empty step has no keyword, nor has a
/// step without `(` that ends in `...`: it was cut short.
pub open spec fn step_keyword(step: Seq<char>) -> Option<Seq<char>> {
    if step.len() == 0 {
        None
    } else if first_index(step, '(') < step.len() {
        Some(step.take(first_index(step, '(')))
    } else if "..."@.is_suffix_of(step) {
        None
    } else {
        Some(step)
    }
}

/// The keyword of a step, if the step has one and it is not valid.
pub open spec fn step_fault(step: Seq<char>) -> Option<Seq<char>> {
    match step_keyword(trim(step)) {
        Some(k) => if is_keyword(k) {
            None
        } else {
            Some(k)
        },
        None => None,
    }
}

/// The first invalid keyword among the first `n` steps.
pub open spec fn first_fault(steps: Seq<Seq<char>>, n: nat) -> Option<Seq<char>>
    decreases n,
{
    if n == 0 {
        None
    } else {
        match first_fault(steps, (n - 1) as nat) {
            Some(k) => Some(k),
            None => step_fault(steps[n - 1]),
        }
    }
}

/// The first invalid keyword of the steps of `content`, which semicolons
/// separate.
pub open spec fn logic_fault(content: Seq<char>) -> Option<Seq<char>> {
    first_fault(split_on(content, ';'), split_on(content, ';').len())
}

/// Why an encoded definition does not fit its level of granularity.
#[derive(Debug, Clone)]
pub enum GranularityError {
    /// The definition has `found` fields.
    FieldCount { index: usize, level: AdHocGranularity, found: usize, definition: String },
    /// The fourth field does not begin with `logic:`.
    LogicPrefix { index: usize, field: String, definition: String },
    /// A step of the logic field has a keyword that is none.
    LogicKeyword { index: usize, keyword: String, definition: String },
}

pub enum GranularityFault {
    FieldCount { index: nat, level: AdHocGranularity, found: nat, definition: Seq<char> },
    LogicPrefix { index: nat, field: Seq<char>, definition: Seq<char> },
    LogicKeyword { index: nat, keyword: Seq<char>, definition: Seq<char> },
}

impl View for GranularityError {
    type V = GranularityFault;

    open spec fn view(&self) -> GranularityFault {
        match self {
            GranularityError::FieldCount { index, level, found, definition } =>
                GranularityFault::FieldCount {
                    index: *index as nat,
                    level: *level,
                    found: *found as nat,
                    definition: definition@,
                },
            GranularityError::LogicPrefix { index, field, definition } =>
                GranularityFault::LogicPrefix {
                    index: *index as nat,
                    field: field@,
                    definition: definition@,
                },
            GranularityError::LogicKeyword { index, keyword, definition } =>
                GranularityFault::LogicKeyword {
                    index: *index as nat,
                    keyword: keyword@,
                    definition: definition@,
                },
        }
    }
}

impl GranularityFault {
    /// The message of the fault.
    pub open spec fn message(self) -> Seq<char> {
        match self {
            GranularityFault::FieldCount { index, level, found, definition } =>
                "Invalid ad-hoc format at definition "@ + decimal(index)
                    + " for granularity level '"@ + level.name() + (if level
                    == AdHocGranularity::InlineLogic {
                    "': expected 3 or 4 fields, got "@
                } else {
                    "': expected 3 fields, got "@
                }) + decimal(found) + ". Definition: '"@ + definition + "'"@,
            GranularityFault::LogicPrefix { index, field, definition } =>
                "Invalid logic field at definition "@ + decimal(index)
                    + ": logic field must start with 'logic:', got '"@ + field
                    + "'. Definition: '"@ + definition + "'"@,
            GranularityFault::LogicKeyword { index, keyword, definition } =>
                "Invalid logic keyword at definition "@ + decimal(index) + ": found '"@ + keyword
                    + "', valid keywords are: check, action, return, match, get. Definition: '"@
                    + definition + "'"@,
        }
    }
}

impl GranularityError {
    pub fn to_string(&self) -> (r: String)
        ensures
            r@ == self@.message(),
    {
        let mut out: Vec<char> = Vec::new();
        match self {
            GranularityError::FieldCount { index, level, found, definition } => {
                push_str(&mut out, "Invalid ad-hoc format at definition ");
                append_chars(&mut out, &decimal_chars(*index));
                push_str(&mut out, " for granularity level '");
                push_str(&mut out, level.to_str());
                match level {
                    AdHocGranularity::InlineLogic => {
                        push_str(&mut out, "': expected 3 or 4 fields, got ");
                    },
                    _ => {
                        push_str(&mut out, "': expected 3 fields, got ");
                    },
                }
                append_chars(&mut out, &decimal_chars(*found));
                push_str(&mut out, ". Definition: '");
                push_str(&mut out, definition.as_str());
                push_str(&mut out, "'");
            },
            GranularityError::LogicPrefix { index, field, definition } => {
                push_str(&mut out, "Invalid logic field at definition ");
                append_chars(&mut out, &decimal_chars(*index));
                push_str(&mut out, ": logic field must start with 'logic:', got '");
                push_str(&mut out, field.as_str());
                push_str(&mut out, "'. Definition: '");
                push_str(&mut out, definition.as_str());
                push_str(&mut out, "'");
            },
            GranularityError::LogicKeyword { index, keyword, definition } => {
                push_str(&mut out, "Invalid logic keyword at definition ");
                append_chars(&mut out, &decimal_chars(*index));
                push_str(&mut out, ": found '");
                push_str(&mut out, keyword.as_str());
                push_str(
                    &mut out,
                    "', valid keywords are: check, action, return, match, get. Definition: '",
                );
                push_str(&mut out, definition.as_str());
                push_str(&mut out, "'");
            },
        }
        assert(out@ =~= self@.message());
        string_of(&out)
    }
}

/// The fault of the logic content of the definition at `index`, if it has
/// one.
pub open spec fn keyword_fault(content: Seq<char>, index: nat, def: Seq<char>) -> Option<
    GranularityFault,
> {
    match logic_fault(content) {
        Some(k) => Some(GranularityFault::LogicKeyword { index, keyword: k, definition: def }),
        None => None,
    }
}

/// The fault of the encoded definition at `index` for a level, if it has
/// one. At the first two levels a definition has three fields. At the third
/// it has three or four; a fourth begins with `logic:`, and each of its
/// steps that has a keyword has a valid one.
pub open spec fn definition_fault(level: AdHocGranularity, index: nat, def: Seq<char>) -> Option<
    GranularityFault,
> {
    let n = separator_count(def) + 1;
    match level {
        AdHocGranularity::InlineLogic => if n != 3 && n != 4 {
            Some(GranularityFault::FieldCount { index, level, found: n, definition: def })
        } else if n == 4 {
            let f = fields(def)[3];
            if !"logic:"@.is_prefix_of(f) || f.len() < 6 {
                Some(GranularityFault::LogicPrefix { index, field: f, definition: def })
            } else {
                keyword_fault(f.skip(6), index, def)
            }
        } else {
            None
        },
        _ => if n != 3 {
            Some(GranularityFault::FieldCount { index, level, found: n, definition: def })
        } else {
            None
        },
    }
}

/// The fault of the first of the first `n` definitions that has one.
pub open spec fn first_definition_fault(level: AdHocGranularity, defs: Seq<Seq<char>>, n: nat)
    -> Option<GranularityFault>
    decreases n,
{
    if n == 0 {
        None
    } else {
        match first_definition_fault(level, defs, (n - 1) as nat) {
            Some(f) => Some(f),
            None => definition_fault(level, (n - 1) as nat, defs[n - 1]),
        }
    }
}

/// Once a definition has a fault, that fault stays the first.
pub proof fn lemma_first_definition_fault_stays(
    level: AdHocGranularity,
    defs: Seq<Seq<char>>,
    k: nat,
    n: nat,
)
    requires
        k <= n,
        first_definition_fault(level, defs, k).is_some(),
    ensures
        first_definition_fault(level, defs, n) == first_definition_fault(level, defs, k),
    decreases n,
{
    if n > k {
        lemma_first_definition_fault_stays(level, defs, k, (n - 1) as nat);
    }
}

pub proof fn lemma_first_fault_stays(steps: Seq<Seq<char>>, k: nat, n: nat)
    requires
        k <= n,
        first_fault(steps, k).is_some(),
    ensures
        first_fault(steps, n) == first_fault(steps, k),
    decreases n,
{
    if n > k {
        lemma_first_fault_stays(steps, k, (n - 1) as nat);
    }
}

fn keyword_is_valid(k: &Vec<char>) -> (r: bool)
    ensures
        r == is_keyword(k@),
{
    is_literal(k, "check") || is_literal(k, "action") || is_literal(k, "return") || is_literal(
        k,
        "match",
    ) || is_literal(k, "get")
}

fn find_logic_fault(content: &Vec<char>) -> (r: Option<Vec<char>>)
    ensures
        match r {
            Some(k) => logic_fault(content@) == Some(k@),
            None => logic_fault(content@).is_none(),
        },
{
    let steps = split_chars(content, ';');
    let mut i: usize = 0;
    while i < steps.len()
        invariant
            i <= steps.len(),
            seqs_of(steps@) == split_on(content@, ';'),
            first_fault(seqs_of(steps@), i as nat).is_none(),
        decreases steps.len() - i,
    {
        let step = trim_chars(&steps[i]);
        assert(seqs_of(steps@)[i as int] == steps@[i as int]@);
        if step.len() > 0 {
            let paren = find_char(&step, '(');
            let keyword: Option<Vec<char>> = if paren < step.len() {
                let k = slice_of(&step, 0, paren);
                assert(k@ == step@.take(paren as int));
                Some(k)
            } else if ends_with_lit(&step, "...") {
                None
            } else {
                Some(step)
            };
            match keyword {
                Some(k) => {
                    if !keyword_is_valid(&k) {
                        proof {
                            lemma_first_fault_stays(
                                seqs_of(steps@),
                                (i + 1) as nat,
                                steps@.len(),
                            );
                        }
                        return Some(k);
                    }
                },
                None => {},
            }
        }
        i += 1;
    }
    None
}

/// Checks the keywords of the logic content of the definition at `idx`.
pub fn validate_logic_keywords(logic_content: &str, idx: usize, def: &str) -> (r: Result<
    (),
    GranularityError,
>)
    ensures
        match r {
            Ok(_) => keyword_fault(logic_content@, idx as nat, def@).is_none(),
            Err(e) => keyword_fault(logic_content@, idx as nat, def@) == Some(e@),
        },
{
    let v = chars_of(logic_content);
    match find_logic_fault(&v) {
        Some(k) => Err(
            GranularityError::LogicKeyword {
                index: idx,
                keyword: string_of(&k),
                definition: def.to_string(),
            },
        ),
        None => Ok(()),
    }
}

fn check_definition(level: AdHocGranularity, idx: usize, def: &str) -> (r: Result<
    (),
    GranularityError,
>)
    ensures
        match r {
            Ok(_) => definition_fault(level, idx as nat, def@).is_none(),
            Err(e) => definition_fault(level, idx as nat, def@) == Some(e@),
        },
{
    proof {
        reveal_strlit("logic:");
    }
    let v = chars_of(def);
    let parts = split_fields(&v);
    proof {
        lemma_field_count(v@);
    }
    let n = parts.len();
    match level {
        AdHocGranularity::InlineLogic => {
            if n != 3 && n != 4 {
                return Err(
                    GranularityError::FieldCount {
                        index: idx,
                        level,
                        found: n,
                        definition: def.to_string(),
                    },
                );
            }
            if n == 4 {
                proof {
                    assert(seqs_of(parts@)[3] == parts@[3]@);
                }
                let f = &parts[3];
                if !starts_with_lit(f, "logic:") {
                    return Err(
                        GranularityError::LogicPrefix {
                            index: idx,
                            field: string_of(f),
                            definition: def.to_string(),
                        },
                    );
                }
                let content = slice_of(f, 6, f.len());
                assert(content@ == f@.skip(6));
                match find_logic_fault(&content) {
                    Some(k) => {
                        return Err(
                            GranularityError::LogicKeyword {
                                index: idx,
                                keyword: string_of(&k),
                                definition: def.to_string(),
                            },
                        );
                    },
                    None => {},
                }
            }
            Ok(())
        },
        _ => {
            if n != 3 {
                return Err(
                    GranularityError::FieldCount {
                        index: idx,
                        level,
                        found: n,
                        definition: def.to_string(),
                    },
                );
            }
            Ok(())
        },
    }
}

/// Checks each encoded definition against the level of granularity. The
/// error is that of the first definition that does not fit.
pub fn validate_adhoc_granularity(graph: &YcgGraphAdHoc, granularity: AdHocGranularity) -> (r:
    Result<(), GranularityError>)
    ensures
        match r {
            Ok(_) => first_definition_fault(
                granularity,
                graph@.definitions,
                graph@.definitions.len(),
            ).is_none(),
            Err(e) => first_definition_fault(
                granularity,
                graph@.definitions,
                graph@.definitions.len(),
            ) == Some(e@),
        },
{
    let mut i: usize = 0;
    while i < graph.definitions.len()
        invariant
            i <= graph.definitions.len(),
            first_definition_fault(granularity, texts(graph.definitions@), i as nat).is_none(),
        decreases graph.definitions.len() - i,
    {
        match check_definition(granularity, i, graph.definitions[i].as_str()) {
            Ok(_) => {},
            Err(e) => {
                proof {
                    lemma_first_definition_fault_stays(
                        granularity,
                        texts(graph.definitions@),
                        (i + 1) as nat,
                        graph.definitions@.len(),
                    );
                }
                return Err(e);
            },
        }
        i += 1;
    }
    Ok(())
}

/// The parts of `s` between its separators, a last part that is empty left
/// out.
pub open spec fn unescaped_parts(s: Seq<char>) -> Seq<Seq<char>> {
    if fields(s).last().len() == 0 {
        fields(s).drop_last()
    } else {
        fields(s)
    }
}

/// Splits `s` at its separators; a last part that is empty is left out.
pub fn split_unescaped_pipes(s: &str) -> (r: Vec<String>)
    ensures
        texts(r@) == unescaped_parts(s@),
{
    let mut parts = crate::adhoc_format::split_fields_of(s);
    proof {
        lemma_field_count(s@);
    }
    if parts[parts.len() - 1].as_str().unicode_len() == 0 {
        let ghost before = parts@;
        let _ = parts.pop();
        assert(texts(parts@) =~= texts(before).drop_last());
    }
    parts
}

/// Counts the separators of `s`: the `|` that no backslash stands directly
/// before.
pub fn count_unescaped_pipes(s: &str) -> (r: usize)
    ensures
        r == separator_count(s@),
{
    let v = chars_of(s);
    count_separators(&v)
}


/// Why an encoded graph is not valid.
#[derive(Debug, Clone)]
pub enum AdHocValidationError {
    /// A definition has `found` fields where three are expected.
    FieldCount { index: usize, found: usize, definition: String },
    /// A definition does not fit the level of granularity.
    Granularity(GranularityError),
    /// An edge runs to or from an id that no definition carries.
    Integrity(ValidationError),
}

impl AdHocValidationError {
    /// The message of the error. For the last two kinds it names the check
    /// that failed; the error inside says why.
    pub open spec fn message(&self) -> Seq<char> {
        match self {
            AdHocValidationError::FieldCount { index, found, definition } =>
                "Invalid ad-hoc format at definition "@ + decimal(*index as nat)
                    + ": expected 3 fields, got "@ + decimal(*found as nat) + ". Definition: '"@
                    + definition@ + "'"@,
            AdHocValidationError::Granularity(_) => "Ad-hoc granularity validation failed"@,
            AdHocValidationError::Integrity(_) =>
                "Ad-hoc format referential integrity check failed"@,
        }
    }

    pub fn to_string(&self) -> (r: String)
        ensures
            r@ == self.message(),
    {
        let mut out: Vec<char> = Vec::new();
        match self {
            AdHocValidationError::FieldCount { index, found, definition } => {
                push_str(&mut out, "Invalid ad-hoc format at definition ");
                append_chars(&mut out, &decimal_chars(*index));
                push_str(&mut out, ": expected 3 fields, got ");
                append_chars(&mut out, &decimal_chars(*found));
                push_str(&mut out, ". Definition: '");
                push_str(&mut out, definition.as_str());
                push_str(&mut out, "'");
            },
            AdHocValidationError::Granularity(_) => {
                push_str(&mut out, "Ad-hoc granularity validation failed");
            },
            AdHocValidationError::Integrity(_) => {
                push_str(&mut out, "Ad-hoc format referential integrity check failed");
            },
        }
        assert(out@ =~= self.message());
        string_of(&out)
    }
}

/// What the validation of an encoded graph at a level gives: the fault of
/// the first definition that does not fit; else, where an edge is invalid,
/// the integrity violation; else success. The plain validation reports a
/// fault as a count of fields, the other as the fault itself.
pub open spec fn validation_holds(
    graph: crate::model::AdHocView,
    level: AdHocGranularity,
    plain: bool,
    r: Result<(), AdHocValidationError>,
) -> bool {
    let fault = first_definition_fault(level, graph.definitions, graph.definitions.len());
    match r {
        Ok(_) => fault.is_none() && all_violations(
            encoded_ids(graph.definitions),
            crate::adjacency::flat_edges(graph.adjacency),
        ).len() == 0,
        Err(AdHocValidationError::FieldCount { index, found, definition }) => fault == Some(
            GranularityFault::FieldCount {
                index: index as nat,
                level,
                found: found as nat,
                definition: definition@,
            },
        ) && plain,
        Err(AdHocValidationError::Granularity(e)) => fault == Some(e@) && !plain,
        Err(AdHocValidationError::Integrity(e)) => fault.is_none() && integrity_holds(
            encoded_ids(graph.definitions),
            crate::adjacency::flat_edges(graph.adjacency),
            Err(e),
        ),
    }
}

/// Validates encoded graphs.
pub struct AdHocValidator;

impl AdHocValidator {
    /// Validates an encoded graph of level 0: three fields in each
    /// definition, every edge between ids of the definitions.
    pub fn validate(graph: &YcgGraphAdHoc) -> (r: Result<(), AdHocValidationError>)
        ensures
            validation_holds(graph@, AdHocGranularity::Default, true, r),
    {
        match validate_adhoc_granularity(graph, AdHocGranularity::Default) {
            Ok(_) => {},
            Err(e) => {
                proof {
                    lemma_default_faults(graph@.definitions, graph@.definitions.len());
                }
                match e {
                    GranularityError::FieldCount { index, level, found, definition } => {
                        return Err(AdHocValidationError::FieldCount { index, found, definition });
                    },
                    _ => {
                        return vstd::pervasive::unreached();
                    },
                }
            },
        }
        match validate_graph_integrity_adhoc(graph) {
            Ok(_) => Ok(()),
            Err(e) => Err(AdHocValidationError::Integrity(e)),
        }
    }

    /// Validates an encoded graph of the given level: the fields and the
    /// logic of each definition, then the integrity of the edges.
    pub fn validate_with_granularity(graph: &YcgGraphAdHoc, granularity: AdHocGranularity) -> (r:
        Result<(), AdHocValidationError>)
        ensures
            validation_holds(graph@, granularity, false, r),
    {
        match validate_adhoc_granularity(graph, granularity) {
            Ok(_) => {},
            Err(e) => {
                return Err(AdHocValidationError::Granularity(e));
            },
        }
        match validate_graph_integrity_adhoc(graph) {
            Ok(_) => Ok(()),
            Err(e) => Err(AdHocValidationError::Integrity(e)),
        }
    }
}

/// At level 0 the only fault is a wrong number of fields.
pub proof fn lemma_default_faults(defs: Seq<Seq<char>>, n: nat)
    ensures
        match first_definition_fault(AdHocGranularity::Default, defs, n) {
            Some(f) => f is FieldCount && f->FieldCount_level == AdHocGranularity::Default,
            None => true,
        },
    decreases n,
{
    if n > 0 {
        lemma_default_faults(defs, (n - 1) as nat);
    }
}


/// The reason that the error of a text gives which is no written graph.
pub open spec fn shape_reason() -> Seq<char> {
    "does not conform to YcgGraph or YcgGraphOptimized structure"@
}

/// Validates written YAML.
pub struct YamlValidator;

impl YamlValidator {
    /// Accepts a text exactly if it is YAML and what it holds has the shape
    /// of a written graph, flat or optimized.
    pub fn validate(output: &str) -> (r: Result<(), ValidationError>)
        ensures
            r.is_ok() == (crate::yaml::parsed_yaml(output@) matches Some(content)
                && crate::yaml::graph_shaped(content)),
            r matches Err(e) ==> (e matches ValidationError::InvalidYaml { reason } && reason@
                == shape_reason()),
    {
        proof {
            match crate::yaml::parsed_yaml(output@) {
                Some(content) => {
                    crate::yaml::lemma_shape_within_reach(content, 6);
                },
                None => {},
            }
        }
        match crate::yaml::parse_document(output) {
            Some(doc) => Self::validate_document(&doc),
            None => Err(
                ValidationError::invalid_yaml(
                    "does not conform to YcgGraph or YcgGraphOptimized structure".to_string(),
                ),
            ),
        }
    }

    /// Accepts a document that has the shape of the flat graph or of the
    /// optimized graph, and no other.
    pub fn validate_document(doc: &crate::yaml::YamlNode) -> (r: Result<(), ValidationError>)
        ensures
            r.is_ok() == crate::yaml::graph_shaped(doc@),
            r matches Err(e) ==> (e matches ValidationError::InvalidYaml { reason } && reason@
                == shape_reason()),
    {
        if crate::yaml::conforms(doc) {
            Ok(())
        } else {
            Err(
                ValidationError::invalid_yaml(
                    "does not conform to YcgGraph or YcgGraphOptimized structure".to_string(),
                ),
            )
        }
    }
}

/// What the serializer writes at a level, the validation of that level
/// accepts: no definition has a fault, provided that no id and no second
/// field ends in a backslash.
pub proof fn lemma_written_definitions_fit(
    level: AdHocGranularity,
    nodes: Seq<NodeView>,
    n: nat,
)
    requires
        n <= nodes.len(),
        forall|k: int|
            0 <= k < nodes.len() ==> !crate::adhoc_format::ends_in_backslash(
                (#[trigger] nodes[k]).id,
            ) && !crate::adhoc_format::ends_in_backslash(
                crate::adhoc_serializer_v2::second_field(level, nodes[k]),
            ),
    ensures
        first_definition_fault(
            level,
            crate::adhoc_serializer_v2::encoded_all(level, nodes),
            n,
        ).is_none(),
    decreases n,
{
    if n > 0 {
        lemma_written_definitions_fit(level, nodes, (n - 1) as nat);
        crate::adhoc_serializer_v2::lemma_field_count_invariant(level, nodes[n - 1], None);
    }
}

} // verus!
