//! The compact logic field: `logic:` and steps separated by semicolons,
//! each beginning with one of the keywords `check`, `action`, `return`,
//! `match`, `get`; at most 200 characters after the prefix.

use vstd::prelude::*;
use crate::ast_cache::AstCache;
use crate::model::SymbolNode;
use crate::text::{ends_with_lit, 
    append_chars, chars_of, seqs_of, slice_of, split_chars, split_on, starts_with_lit, string_of,
    trim, trim_chars,
};

verus! {

/// The most characters that a logic field holds after its prefix.
pub const MAX_LOGIC_LENGTH: usize = 200;

/// Whether a step begins with one of the five keywords.
pub open spec fn starts_with_keyword(step: Seq<char>) -> bool {
    "check"@.is_prefix_of(step) || "action"@.is_prefix_of(step) || "return"@.is_prefix_of(step)
        || "match"@.is_prefix_of(step) || "get"@.is_prefix_of(step)
}

/// Whether a step is valid: without the white space around it, it is
/// empty, begins with a keyword, or ends in `...`, which marks a step that
/// was cut short and may have lost its keyword.
pub open spec fn step_valid(step: Seq<char>) -> bool {
    trim(step).len() == 0 || starts_with_keyword(trim(step)) || "..."@.is_suffix_of(trim(step))
}

/// Whether every step of `content`, the steps separated by semicolons, is
/// valid.
pub open spec fn keywords_valid(content: Seq<char>) -> bool {
    forall|i: int|
        0 <= i < split_on(content, ';').len() ==> step_valid(#[trigger] split_on(content, ';')[i])
}

/// Whether `logic` is a well-formed logic field: the prefix, then at most
/// 200 characters, every step valid.
pub open spec fn logic_valid(logic: Seq<char>) -> bool {
    "logic:"@.is_prefix_of(logic) && logic.len() >= 6 && logic.len() - 6 <= 200 && keywords_valid(
        logic.skip(6),
    )
}

/// `logic` cut to the bound: unchanged up to 200 characters, else its first
/// 197 characters and `...`.
pub open spec fn truncated(logic: Seq<char>) -> Seq<char> {
    if logic.len() <= 200 {
        logic
    } else {
        logic.take(197) + "..."@
    }
}

fn step_has_keyword(step: &Vec<char>) -> (r: bool)
    ensures
        r == starts_with_keyword(step@),
{
    starts_with_lit(step, "check") || starts_with_lit(step, "action") || starts_with_lit(
        step,
        "return",
    ) || starts_with_lit(step, "match") || starts_with_lit(step, "get")
}

fn validate_keywords_chars(content: &Vec<char>) -> (r: bool)
    ensures
        r == keywords_valid(content@),
{
    let steps = split_chars(content, ';');
    let mut i: usize = 0;
    while i < steps.len()
        invariant
            i <= steps.len(),
            seqs_of(steps@) == split_on(content@, ';'),
            forall|j: int| 0 <= j < i ==> step_valid(#[trigger] split_on(content@, ';')[j]),
        decreases steps.len() - i,
    {
        let step = trim_chars(&steps[i]);
        assert(seqs_of(steps@)[i as int] == steps@[i as int]@);
        if step.len() > 0 && !step_has_keyword(&step) && !ends_with_lit(&step, "...") {
            assert(!step_valid(split_on(content@, ';')[i as int]));
            return false;
        }
        i += 1;
    }
    true
}

/// Extracts and checks the logic field of methods and functions.
pub struct LogicExtractor;

impl LogicExtractor {
    /// The logic field of a node. No extraction heuristic is built in:
    /// nothing is extracted, of whatever kind the node is.
    pub fn extract_logic(node: &SymbolNode, _source: &str) -> (r: Option<String>)
        ensures
            r.is_none(),
    {
        None
    }

    /// The logic field of a node, with a cache of parsed files at hand. The
    /// cache is not changed and nothing is extracted.
    pub fn extract_logic_with_cache(node: &SymbolNode, file_path: &str, cache: &mut AstCache) -> (r:
        Option<String>)
        ensures
            r.is_none(),
            final(cache)@ == old(cache)@,
    {
        None
    }

    /// Whether `logic` is a well-formed logic field.
    pub fn validate_logic(logic: &str) -> (r: bool)
        ensures
            r == logic_valid(logic@),
    {
        proof {
            reveal_strlit("logic:");
        }
        let v = chars_of(logic);
        if !starts_with_lit(&v, "logic:") {
            return false;
        }
        if v.len() - 6 > MAX_LOGIC_LENGTH {
            return false;
        }
        let content = slice_of(&v, 6, v.len());
        assert(content@ == v@.skip(6));
        validate_keywords_chars(&content)
    }

    /// Whether every step of `content` is valid: it begins with a keyword,
    /// or it ends in `...`, or it is empty.
    pub fn validate_keywords(content: &str) -> (r: bool)
        ensures
            r == keywords_valid(content@),
    {
        let v = chars_of(content);
        validate_keywords_chars(&v)
    }

    /// Cuts `logic` to at most 200 characters, the last three of them `...`
    /// where something was cut.
    pub fn truncate_logic(logic: &str) -> (r: String)
        ensures
            r@ == truncated(logic@),
            r@.len() <= 200,
    {
        proof {
            reveal_strlit("...");
        }
        let v = chars_of(logic);
        if v.len() <= MAX_LOGIC_LENGTH {
            return string_of(&v);
        }
        let mut out = slice_of(&v, 0, MAX_LOGIC_LENGTH - 3);
        assert(out@ == v@.take(197));
        append_chars(&mut out, &chars_of("..."));
        string_of(&out)
    }
}

} // verus!
