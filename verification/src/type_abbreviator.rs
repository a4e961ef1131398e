//! Abbreviation of type syntax: `string` becomes `str`, `number` becomes
//! `num`, `boolean` becomes `bool`, inside arrays, optionals and generics
//! too. Every other name is kept as it is written, without the white space
//! around it.

use vstd::prelude::*;
use crate::text::{
    append_chars, chars_of, ends_with_lit, find_char, first_index, is_literal, join, join_chars,
    leading_spaces, lemma_first_index, lemma_leading_spaces, lemma_seqs_of_push,
    lemma_trailing_spaces, seqs_of, slice_of, string_of, trim, trim_chars,
};

verus! {

/// The abbreviation of a type name that is neither array, optional nor
/// generic: the name without the white space around it, shortened where it
/// is exactly `string`, `number` or `boolean`.
pub open spec fn simple_abbreviation(s: Seq<char>) -> Seq<char> {
    let t = trim(s);
    if t == "string"@ {
        "str"@
    } else if t == "number"@ {
        "num"@
    } else if t == "boolean"@ {
        "bool"@
    } else {
        t
    }
}

/// The state of the scan that cuts generic parameters at the commas which
/// stand at depth zero of the angle brackets.
pub struct GenericScan {
    pub parts: Seq<Seq<char>>,
    pub current: Seq<char>,
    pub depth: int,
}

/// The scan before any character.
pub open spec fn scan_start() -> GenericScan {
    GenericScan { parts: Seq::empty(), current: Seq::empty(), depth: 0 }
}

/// The scan after one more character. A `<` opens a level, a `>` closes
/// one. A comma at depth zero ends the current piece, which is kept,
/// trimmed, unless nothing but white space stands in it.
pub open spec fn scan_step(st: GenericScan, c: char) -> GenericScan {
    if c == '<' {
        GenericScan { parts: st.parts, current: st.current.push(c), depth: st.depth + 1 }
    } else if c == '>' {
        GenericScan { parts: st.parts, current: st.current.push(c), depth: st.depth - 1 }
    } else if c == ',' && st.depth == 0 {
        GenericScan { parts: st.parts + piece(st.current), current: Seq::empty(), depth: 0 }
    } else {
        GenericScan { parts: st.parts, current: st.current.push(c), depth: st.depth }
    }
}

/// What a stretch of text between two commas gives: itself, trimmed, or
/// nothing where only white space stands in it.
pub open spec fn piece(s: Seq<char>) -> Seq<Seq<char>> {
    if trim(s).len() > 0 {
        seq![trim(s)]
    } else {
        Seq::empty()
    }
}

/// The scan after the first `n` characters of `s`.
pub open spec fn generic_scan(s: Seq<char>, n: nat) -> GenericScan
    decreases n,
{
    if n == 0 {
        scan_start()
    } else {
        scan_step(generic_scan(s, (n - 1) as nat), s[n - 1])
    }
}

/// The generic parameters written in `s`.
pub open spec fn generic_parts(s: Seq<char>) -> Seq<Seq<char>> {
    let st = generic_scan(s, s.len());
    st.parts + piece(st.current)
}

/// Whether a trimmed text is written as a generic: it ends with `>`, and a
/// `<` stands before that.
pub open spec fn is_generic(t: Seq<char>) -> bool {
    t.len() >= 2 && t.last() == '>' && first_index(t, '<') < t.len() - 1
}

/// The abbreviation of a type, read without the white space around it. An
/// array suffix `[]` and an optional suffix `?` stay, around the
/// abbreviation of what stands before them. Of a generic, the text before
/// the first `<` is abbreviated as a simple name and each parameter between
/// that `<` and the closing `>` as a type. Anything else is a simple name.
pub open spec fn abbreviated_type(s: Seq<char>) -> Seq<char>
    decreases s.len(), 0nat,
    via abbreviated_type_decreases
{
    let t = trim(s);
    if t.len() >= 2 && "[]"@.is_suffix_of(t) {
        abbreviated_type(t.take(t.len() - 2)) + "[]"@
    } else if t.len() >= 1 && "?"@.is_suffix_of(t) {
        abbreviated_type(t.take(t.len() - 1)) + "?"@
    } else if is_generic(t) {
        let lt = first_index(t, '<');
        let parts = generic_parts(t.subrange(lt + 1, t.len() - 1));
        simple_abbreviation(t.take(lt)) + "<"@ + join(
            abbreviated_parts(parts, (s.len() - 1) as nat, parts.len()),
            ","@,
        ) + ">"@
    } else {
        simple_abbreviation(t)
    }
}

#[via_fn]
proof fn abbreviated_type_decreases(s: Seq<char>) {
    lemma_trim_len(s);
}

/// The abbreviations of the first `n` parameters. `limit` bounds the
/// recursion: no parameter of a type of `limit + 1` characters is longer
/// than `limit`.
pub open spec fn abbreviated_parts(parts: Seq<Seq<char>>, limit: nat, n: nat) -> Seq<Seq<char>>
    decreases limit, n + 1,
{
    if n == 0 {
        Seq::empty()
    } else {
        abbreviated_parts(parts, limit, (n - 1) as nat).push(
            if parts[n - 1].len() <= limit {
                abbreviated_type(parts[n - 1])
            } else {
                parts[n - 1]
            },
        )
    }
}

/// The abbreviation of each of the given types.
pub open spec fn abbreviations(parts: Seq<Seq<char>>) -> Seq<Seq<char>> {
    Seq::new(parts.len(), |i: int| abbreviated_type(parts[i]))
}

/// The abbreviation of a type string.
pub open spec fn abbreviation(s: Seq<char>) -> Seq<char> {
    abbreviated_type(s)
}

/// Where no parameter is longer than the limit, each is abbreviated.
pub proof fn lemma_abbreviated_parts(parts: Seq<Seq<char>>, limit: nat, n: nat)
    requires
        n <= parts.len(),
        forall|k: int| 0 <= k < parts.len() ==> (#[trigger] parts[k]).len() <= limit,
    ensures
        abbreviated_parts(parts, limit, n) == abbreviations(parts).take(n as int),
    decreases n,
{
    if n > 0 {
        lemma_abbreviated_parts(parts, limit, (n - 1) as nat);
        assert(abbreviations(parts).take(n - 1).push(abbreviated_type(parts[n - 1]))
            =~= abbreviations(parts).take(n as int));
    } else {
        assert(abbreviated_parts(parts, limit, 0) =~= abbreviations(parts).take(0));
    }
}

/// What `abbreviated_type` gives for a generic.
pub proof fn lemma_abbreviated_generic(s: Seq<char>)
    requires
        !(trim(s).len() >= 2 && "[]"@.is_suffix_of(trim(s))),
        !(trim(s).len() >= 1 && "?"@.is_suffix_of(trim(s))),
        is_generic(trim(s)),
    ensures
        abbreviated_type(s) == simple_abbreviation(trim(s).take(first_index(trim(s), '<'))) + "<"@
            + join(
            abbreviations(
                generic_parts(
                    trim(s).subrange(first_index(trim(s), '<') + 1, trim(s).len() - 1),
                ),
            ),
            ","@,
        ) + ">"@,
{
    let t = trim(s);
    lemma_first_index(t, '<');
    lemma_trim_len(s);
    let inner = t.subrange(first_index(t, '<') + 1, t.len() - 1);
    let parts = generic_parts(inner);
    lemma_generic_parts_len(inner);
    lemma_abbreviated_parts(parts, (s.len() - 1) as nat, parts.len());
    assert(abbreviations(parts).take(parts.len() as int) =~= abbreviations(parts));
}

/// Trimming does not lengthen.
pub proof fn lemma_trim_len(s: Seq<char>)
    ensures
        trim(s).len() <= s.len(),
{
    lemma_leading_spaces(s);
    lemma_trailing_spaces(s.skip(leading_spaces(s)));
}

/// No piece of the scan is longer than the text scanned.
pub proof fn lemma_generic_scan_len(s: Seq<char>, n: nat)
    requires
        n <= s.len(),
    ensures
        generic_scan(s, n).current.len() <= n,
        forall|k: int|
            0 <= k < generic_scan(s, n).parts.len() ==> (#[trigger] generic_scan(s, n).parts[k]).len()
                <= n,
    decreases n,
{
    if n > 0 {
        lemma_generic_scan_len(s, (n - 1) as nat);
        let st = generic_scan(s, (n - 1) as nat);
        lemma_trim_len(st.current);
    }
}

pub proof fn lemma_generic_parts_len(s: Seq<char>)
    ensures
        forall|k: int|
            0 <= k < generic_parts(s).len() ==> (#[trigger] generic_parts(s)[k]).len() <= s.len(),
{
    lemma_generic_scan_len(s, s.len());
    lemma_trim_len(generic_scan(s, s.len()).current);
}

fn abbreviate_simple(v: &Vec<char>) -> (r: Vec<char>)
    ensures
        r@ == simple_abbreviation(v@),
{
    let t = trim_chars(v);
    if is_literal(&t, "string") {
        chars_of("str")
    } else if is_literal(&t, "number") {
        chars_of("num")
    } else if is_literal(&t, "boolean") {
        chars_of("bool")
    } else {
        t
    }
}

fn split_generic_params(v: &Vec<char>) -> (r: Vec<Vec<char>>)
    ensures
        seqs_of(r@) == generic_parts(v@),
{
    let mut parts: Vec<Vec<char>> = Vec::new();
    let mut current: Vec<char> = Vec::new();
    let mut depth: i128 = 0;
    let mut i: usize = 0;
    assert(seqs_of(parts@) =~= Seq::<Seq<char>>::empty());
    while i < v.len()
        invariant
            i <= v.len(),
            -(i as int) <= depth <= i as int,
            seqs_of(parts@) == generic_scan(v@, i as nat).parts,
            current@ == generic_scan(v@, i as nat).current,
            depth == generic_scan(v@, i as nat).depth,
        decreases v.len() - i,
    {
        let c = v[i];
        if c == '<' {
            depth += 1;
            current.push(c);
        } else if c == '>' {
            depth -= 1;
            current.push(c);
        } else if c == ',' && depth == 0 {
            keep_piece(&mut parts, &current);
            current = Vec::new();
        } else {
            current.push(c);
        }
        i += 1;
    }
    keep_piece(&mut parts, &current);
    parts
}

/// Appends what `current` gives as a piece.
fn keep_piece(parts: &mut Vec<Vec<char>>, current: &Vec<char>)
    ensures
        seqs_of(final(parts)@) == seqs_of(old(parts)@) + piece(current@),
{
    let t = trim_chars(current);
    if t.len() > 0 {
        proof {
            lemma_seqs_of_push(parts@, t);
        }
        parts.push(t);
    }
    assert(seqs_of(parts@) =~= seqs_of(old(parts)@) + piece(current@));
}

fn abbreviate_recursive(v: &Vec<char>) -> (r: Vec<char>)
    ensures
        r@ == abbreviated_type(v@),
    decreases v.len(),
{
    proof {
        reveal_strlit("[]");
        reveal_strlit("?");
        lemma_trim_len(v@);
    }
    let t = trim_chars(v);
    if t.len() >= 2 && ends_with_lit(&t, "[]") {
        let base = slice_of(&t, 0, t.len() - 2);
        assert(base@ == t@.take(t.len() - 2));
        let mut r = abbreviate_recursive(&base);
        append_chars(&mut r, &chars_of("[]"));
        return r;
    }
    if t.len() >= 1 && ends_with_lit(&t, "?") {
        let base = slice_of(&t, 0, t.len() - 1);
        assert(base@ == t@.take(t.len() - 1));
        let mut r = abbreviate_recursive(&base);
        append_chars(&mut r, &chars_of("?"));
        return r;
    }
    if t.len() >= 2 && t[t.len() - 1] == '>' {
        let lt = find_char(&t, '<');
        if lt < t.len() - 1 {
            let base = slice_of(&t, 0, lt);
            assert(base@ == t@.take(lt as int));
            let inner = slice_of(&t, lt + 1, t.len() - 1);
            let parts = split_generic_params(&inner);
            proof {
                lemma_generic_parts_len(inner@);
            }
            let mut done: Vec<Vec<char>> = Vec::new();
            let mut k: usize = 0;
            assert(seqs_of(done@) =~= abbreviations(seqs_of(parts@)).take(0));
            while k < parts.len()
                invariant
                    k <= parts.len(),
                    seqs_of(parts@) == generic_parts(inner@),
                    inner@.len() < v.len(),
                    forall|j: int|
                        0 <= j < generic_parts(inner@).len() ==> (#[trigger] generic_parts(
                            inner@,
                        )[j]).len() <= inner@.len(),
                    seqs_of(done@) == abbreviations(seqs_of(parts@)).take(k as int),
                decreases parts.len() - k,
            {
                proof {
                    assert(seqs_of(parts@)[k as int] == parts@[k as int]@);
                }
                let a = abbreviate_recursive(&parts[k]);
                proof {
                    lemma_seqs_of_push(done@, a);
                    assert(abbreviations(seqs_of(parts@)).take(k as int).push(a@)
                        =~= abbreviations(seqs_of(parts@)).take(k as int + 1));
                }
                done.push(a);
                k += 1;
            }
            let mut r = abbreviate_simple(&base);
            r.push('<');
            append_chars(&mut r, &join_chars(&done, &chars_of(",")));
            r.push('>');
            proof {
                reveal_strlit("<");
                reveal_strlit(">");
                assert("<"@ =~= seq!['<']);
                assert(">"@ =~= seq!['>']);
                assert(seqs_of(done@) =~= abbreviations(seqs_of(parts@)));
                lemma_abbreviated_generic(v@);
                assert(r@ =~= simple_abbreviation(t@.take(lt as int)) + "<"@ + join(
                    seqs_of(done@),
                    ","@,
                ) + ">"@);
            }
            return r;
        }
    }
    abbreviate_simple(&t)
}

/// Abbreviates a type given as characters.
pub fn abbreviate_type(v: &Vec<char>) -> (r: Vec<char>)
    ensures
        r@ == abbreviation(v@),
{
    abbreviate_recursive(v)
}

/// Abbreviates type names for the compact encoding.
pub struct TypeAbbreviator;

impl TypeAbbreviator {
    /// Abbreviates a type string.
    pub fn abbreviate(type_str: &str) -> (r: String)
        ensures
            r@ == abbreviation(type_str@),
    {
        let v = chars_of(type_str);
        let r = abbreviate_type(&v);
        string_of(&r)
    }
}

} // verus!
