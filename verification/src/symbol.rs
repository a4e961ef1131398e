//! Structural parsing of raw symbol strings: the display name, the parent's
//! raw identifier, and the kind that the shape of the string suggests.

use vstd::prelude::*;
use crate::model::ScipSymbolKind;
use crate::text::{
    chars_of, contains_lit, contains_sub, ends_with_lit, is_literal, last_index, lemma_last_index,
    replace_all, replace_lit, rfind_char, slice_of, string_of, strip_trailing, strip_trailing_lit,
};

verus! {

/// The display name of a raw symbol string: the text after the last `/` of
/// the string without its trailing `.`, `()`, `#` and `/`, with the
/// backticks taken out.
pub open spec fn display_name(uri: Seq<char>) -> Seq<char> {
    let t = strip_trailing(
        strip_trailing(strip_trailing(strip_trailing(uri, "."@), "()"@), "#"@),
        "/"@,
    );
    let last = t.skip(last_index(t, '/') + 1);
    let clean = replace_all(last, "`"@, ""@);
    if clean == "<constructor>"@ {
        "constructor"@
    } else if clean.len() == 0 {
        "unknown"@
    } else {
        clean
    }
}

/// The display name of a raw symbol string.
pub fn extract_name_from_uri(uri: &str) -> (r: String)
    ensures
        r@ == display_name(uri@),
{
    proof {
        reveal_strlit(".");
        reveal_strlit("()");
        reveal_strlit("#");
        reveal_strlit("/");
        reveal_strlit("`");
    }
    let v = chars_of(uri);
    let t1 = strip_trailing_lit(&v, ".");
    let t2 = strip_trailing_lit(&t1, "()");
    let t3 = strip_trailing_lit(&t2, "#");
    let t = strip_trailing_lit(&t3, "/");
    let start: usize = match rfind_char(&t, '/') {
        Some(i) => i + 1,
        None => 0,
    };
    proof {
        lemma_last_index(t@, '/');
    }
    let last = slice_of(&t, start, t.len());
    assert(last@ == t@.skip(start as int));
    let clean = replace_lit(&last, "`", "");
    if is_literal(&clean, "<constructor>") {
        "constructor".to_string()
    } else if clean.len() == 0 {
        "unknown".to_string()
    } else {
        string_of(&clean)
    }
}

/// The characters at which a raw symbol string is cut to find its parent.
pub open spec fn is_delimiter(c: char) -> bool {
    c == '#' || c == '.' || c == '/' || c == '`'
}

/// The index of the last delimiter of `s`, or `-1`.
pub open spec fn last_delimiter(s: Seq<char>) -> int
    decreases s.len(),
{
    if s.len() == 0 {
        -1
    } else if is_delimiter(s.last()) {
        s.len() - 1
    } else {
        last_delimiter(s.drop_last())
    }
}

pub proof fn lemma_last_delimiter_at(s: Seq<char>, k: int)
    requires
        -1 <= k < s.len(),
        forall|j: int| k < j < s.len() ==> !is_delimiter(#[trigger] s[j]),
        0 <= k ==> is_delimiter(s[k]),
    ensures
        last_delimiter(s) == k,
    decreases s.len(),
{
    if s.len() > 0 && k < s.len() - 1 {
        let t = s.drop_last();
        assert forall|j: int| k < j < t.len() implies !is_delimiter(#[trigger] t[j]) by {
            assert(t[j] == s[j]);
        }
        lemma_last_delimiter_at(t, k);
    }
}

/// The raw identifier of the parent of `symbol`. One trailing `.` is set
/// aside; the rest is cut at its last delimiter, a `#` staying with the
/// parent. There is no parent where there is no delimiter, where the parent
/// would be empty, or where it would be the whole of `symbol`.
pub open spec fn parent_raw(symbol: Seq<char>) -> Option<Seq<char>> {
    let body = if symbol.len() > 0 && symbol.last() == '.' {
        symbol.drop_last()
    } else {
        symbol
    };
    let k = last_delimiter(body);
    if k < 0 {
        None
    } else {
        let end = if body[k] == '#' {
            k + 1
        } else {
            k
        };
        if 0 < end < symbol.len() {
            Some(body.take(end))
        } else {
            None
        }
    }
}

/// The parent's raw identifier, as text.
pub fn extract_parent_raw(symbol: &str) -> (r: Option<String>)
    ensures
        crate::model::opt_text(r) == parent_raw(symbol@),
{
    let v = chars_of(symbol);
    let n: usize = if v.len() > 0 && v[v.len() - 1] == '.' {
        v.len() - 1
    } else {
        v.len()
    };
    let ghost body = v@.take(n as int);
    assert(v@.take(v.len() as int) == v@);
    let mut idx: usize = n;
    while idx > 0 && !(v[idx - 1] == '#' || v[idx - 1] == '.' || v[idx - 1] == '/' || v[idx - 1]
        == '`')
        invariant
            idx <= n <= v.len(),
            body == v@.take(n as int),
            forall|j: int| idx <= j < n ==> !is_delimiter(#[trigger] body[j]),
        decreases idx,
    {
        idx -= 1;
    }
    proof {
        lemma_last_delimiter_at(body, idx - 1);
    }
    if idx == 0 {
        return None;
    }
    let k: usize = idx - 1;
    let end: usize = if v[k] == '#' {
        k + 1
    } else {
        k
    };
    if 0 < end && end < v.len() {
        let p = slice_of(&v, 0, end);
        assert(p@ == body.take(end as int));
        Some(string_of(&p))
    } else {
        None
    }
}

/// The kind that the shape of a raw symbol string suggests.
pub open spec fn inferred_kind(uri: Seq<char>) -> ScipSymbolKind {
    if "()."@.is_suffix_of(uri) || contains_sub(uri, "#<constructor>"@) {
        ScipSymbolKind::Method
    } else if "#"@.is_suffix_of(uri) {
        ScipSymbolKind::Class
    } else if contains_sub(uri, "/match"@) || contains_sub(uri, "function"@) {
        ScipSymbolKind::Function
    } else if "/"@.is_suffix_of(uri) {
        ScipSymbolKind::File
    } else {
        ScipSymbolKind::Variable
    }
}

/// The kind that the shape of a raw symbol string suggests.
pub fn infer_kind_from_uri(uri: &str) -> (r: ScipSymbolKind)
    ensures
        r == inferred_kind(uri@),
{
    let v = chars_of(uri);
    if ends_with_lit(&v, "().") || contains_lit(&v, "#<constructor>") {
        ScipSymbolKind::Method
    } else if ends_with_lit(&v, "#") {
        ScipSymbolKind::Class
    } else if contains_lit(&v, "/match") || contains_lit(&v, "function") {
        ScipSymbolKind::Function
    } else if ends_with_lit(&v, "/") {
        ScipSymbolKind::File
    } else {
        ScipSymbolKind::Variable
    }
}

/// The kind that stands for a number of the index's symbol-kind table.
/// Numbers that the table does not name for one of the six kinds below stand
/// for a variable.
pub open spec fn mapped_kind(k: i32) -> ScipSymbolKind {
    if k == 7 {
        ScipSymbolKind::Class
    } else if k == 26 {
        ScipSymbolKind::Method
    } else if k == 17 {
        ScipSymbolKind::Function
    } else if k == 61 {
        ScipSymbolKind::Variable
    } else if k == 21 {
        ScipSymbolKind::Interface
    } else if k == 29 {
        ScipSymbolKind::Module
    } else {
        ScipSymbolKind::Variable
    }
}

/// The kind that stands for a number of the symbol-kind table.
pub fn map_kind(k: i32) -> (r: ScipSymbolKind)
    ensures
        r == mapped_kind(k),
{
    if k == 7 {
        ScipSymbolKind::Class
    } else if k == 26 {
        ScipSymbolKind::Method
    } else if k == 17 {
        ScipSymbolKind::Function
    } else if k == 61 {
        ScipSymbolKind::Variable
    } else if k == 21 {
        ScipSymbolKind::Interface
    } else if k == 29 {
        ScipSymbolKind::Module
    } else {
        ScipSymbolKind::Variable
    }
}

/// The kind of a symbol: from the table where it has a number other than
/// zero for the symbol, else from the shape of the string.
pub open spec fn symbol_kind(raw_kind: i32, uri: Seq<char>) -> ScipSymbolKind {
    if raw_kind == 0 {
        inferred_kind(uri)
    } else {
        mapped_kind(raw_kind)
    }
}

} // verus!
