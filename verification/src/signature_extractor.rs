//! Compaction of signatures: `async findOne(id: string): User | null`
//! becomes `findOne(id:str):User?`.

use vstd::prelude::*;
use crate::ast_cache::AstCache;
use crate::model::{opt_text, NodeView, SymbolNode};
use crate::text::{
    append_chars, chars_of, find_char, first_index, has_char, is_literal, join, join_chars,
    lemma_first_index, lemma_seqs_of_push, replace_all, replace_lit, seqs_of, slice_of, split_chars,
    split_on, string_of, trim, trim_chars,
};
use crate::type_abbreviator::{abbreviate_type, abbreviation};

verus! {

/// The signature without the modifier keywords: every `async `, then every
/// `export `, `public `, `private `, `protected ` and `static `, taken out
/// wherever it stands.
pub open spec fn without_modifiers(sig: Seq<char>) -> Seq<char> {
    replace_all(
        replace_all(
            replace_all(
                replace_all(
                    replace_all(replace_all(sig, "async "@, ""@), "export "@, ""@),
                    "public "@,
                    ""@,
                ),
                "private "@,
                ""@,
            ),
            "protected "@,
            ""@,
        ),
        "static "@,
        ""@,
    )
}

/// The index of the `)` that brings the count of open parentheses back to
/// zero, counting from index `i` with `depth` open; `-1` where none does.
pub open spec fn closing_paren(s: Seq<char>, i: int, depth: int) -> int
    decreases s.len() - i,
{
    if i < 0 || i >= s.len() {
        -1
    } else if s[i] == '(' {
        closing_paren(s, i + 1, depth + 1)
    } else if s[i] == ')' {
        if depth - 1 == 0 {
            i
        } else {
            closing_paren(s, i + 1, depth - 1)
        }
    } else {
        closing_paren(s, i + 1, depth)
    }
}

/// The state of the scan that cuts a parameter list at the commas which
/// stand at depth zero.
pub struct ParameterScan {
    pub parts: Seq<Seq<char>>,
    pub current: Seq<char>,
    pub depth: int,
}

/// The scan after the first `n` characters. `<`, `(` and `[` open a level;
/// `>`, `)` and `]` close one. A comma at depth zero ends the current piece
/// if that holds more than white space; the piece is kept trimmed.
pub open spec fn parameter_scan(s: Seq<char>, n: nat) -> ParameterScan
    decreases n,
{
    if n == 0 {
        ParameterScan { parts: Seq::empty(), current: Seq::empty(), depth: 0 }
    } else {
        let st = parameter_scan(s, (n - 1) as nat);
        let c = s[n - 1];
        if c == '<' || c == '(' || c == '[' {
            ParameterScan { parts: st.parts, current: st.current.push(c), depth: st.depth + 1 }
        } else if c == '>' || c == ')' || c == ']' {
            ParameterScan { parts: st.parts, current: st.current.push(c), depth: st.depth - 1 }
        } else if c == ',' && st.depth == 0 {
            if trim(st.current).len() > 0 {
                ParameterScan {
                    parts: st.parts.push(trim(st.current)),
                    current: Seq::empty(),
                    depth: 0,
                }
            } else {
                st
            }
        } else {
            ParameterScan { parts: st.parts, current: st.current.push(c), depth: st.depth }
        }
    }
}

/// The pieces of a parameter list.
pub open spec fn parameter_pieces(s: Seq<char>) -> Seq<Seq<char>> {
    let st = parameter_scan(s, s.len());
    if trim(st.current).len() > 0 {
        st.parts.push(trim(st.current))
    } else {
        st.parts
    }
}

/// Name and type of one parameter. What follows the first `=` is dropped.
/// The name stands before the first `:`, the type after it; a piece without
/// `:` is no parameter. A `?` at the end of the name goes to the end of the
/// type, unless the type ends in one.
pub open spec fn parameter_pair(param: Seq<char>) -> Option<(Seq<char>, Seq<char>)> {
    let p = param.take(first_index(param, '='));
    let colon = first_index(p, ':');
    if colon >= p.len() {
        None
    } else {
        let name_part = trim(p.take(colon));
        let type_part = trim(p.skip(colon + 1));
        if name_part.len() > 0 && name_part.last() == '?' {
            Some(
                (
                    name_part.drop_last(),
                    if type_part.len() > 0 && type_part.last() == '?' {
                        type_part
                    } else {
                        type_part.push('?')
                    },
                ),
            )
        } else {
            Some((name_part, type_part))
        }
    }
}

/// The parameters among the first `n` pieces.
pub open spec fn parameter_pairs(pieces: Seq<Seq<char>>, n: nat) -> Seq<(Seq<char>, Seq<char>)>
    decreases n,
{
    if n == 0 {
        Seq::empty()
    } else {
        let prev = parameter_pairs(pieces, (n - 1) as nat);
        match parameter_pair(pieces[n - 1]) {
            Some(p) => prev.push(p),
            None => prev,
        }
    }
}

/// The parameters of a parameter list.
pub open spec fn parameters(s: Seq<char>) -> Seq<(Seq<char>, Seq<char>)> {
    if trim(s).len() == 0 {
        Seq::empty()
    } else {
        parameter_pairs(parameter_pieces(s), parameter_pieces(s).len())
    }
}

/// The members, among the first `n` of a union, that are neither `null`
/// nor `undefined`, trimmed.
pub open spec fn union_members(parts: Seq<Seq<char>>, n: nat) -> Seq<Seq<char>>
    decreases n,
{
    if n == 0 {
        Seq::empty()
    } else {
        let prev = union_members(parts, (n - 1) as nat);
        let t = trim(parts[n - 1]);
        if t == "null"@ || t == "undefined"@ {
            prev
        } else {
            prev.push(t)
        }
    }
}

/// A union type reduced: where one member is left beside `null` and
/// `undefined`, that member with `?`; where several are left, the first of
/// them; where none is left, and where the type is no union, the type
/// itself, trimmed.
pub open spec fn normalized_optional(t: Seq<char>) -> Seq<char> {
    let s = trim(t);
    if s.contains('|') {
        let m = union_members(split_on(s, '|'), split_on(s, '|').len());
        if m.len() == 1 {
            m[0].push('?')
        } else if m.len() > 1 {
            m[0]
        } else {
            s
        }
    } else {
        s
    }
}

/// The compact form of a type: reduced, then abbreviated.
pub open spec fn compact_type(t: Seq<char>) -> Seq<char> {
    abbreviation(normalized_optional(t))
}

/// The first `n` parameters, each as `name:type`.
pub open spec fn rendered_parameters(params: Seq<(Seq<char>, Seq<char>)>, n: nat) -> Seq<Seq<char>>
    decreases n,
{
    if n == 0 {
        Seq::empty()
    } else {
        rendered_parameters(params, (n - 1) as nat).push(
            params[n - 1].0 + seq![':'] + compact_type(params[n - 1].1),
        )
    }
}

/// `name(p1:t1,p2:t2)` and, unless the compact return type is empty or
/// `void`, `:` and that type.
pub open spec fn compact_form(
    name: Seq<char>,
    params: Seq<(Seq<char>, Seq<char>)>,
    return_type: Seq<char>,
) -> Seq<char> {
    let head = name + seq!['('] + join(rendered_parameters(params, params.len()), seq![','])
        + seq![')'];
    let ret = compact_type(return_type);
    if ret.len() == 0 || ret == "void"@ {
        head
    } else {
        head + seq![':'] + ret
    }
}

/// The parts of a signature.
pub struct SignatureParts {
    pub name: Seq<char>,
    pub params: Seq<(Seq<char>, Seq<char>)>,
    pub return_type: Seq<char>,
}

/// The parts of a signature, where it has the shape `name(params)` or
/// `name(params): type`. The name is the text before the first `(`, or
/// `fallback` where that is empty; the return type is what follows the
/// first `:` after the closing parenthesis.
pub open spec fn signature_parts(sig: Seq<char>, fallback: Seq<char>) -> Option<SignatureParts> {
    let open = first_index(sig, '(');
    let close = closing_paren(sig, open, 0);
    if open >= sig.len() || close < 0 {
        None
    } else {
        let name = trim(sig.take(open));
        let after = sig.skip(close);
        let colon = first_index(after, ':');
        Some(
            SignatureParts {
                name: if name.len() == 0 {
                    fallback
                } else {
                    name
                },
                params: parameters(sig.subrange(open + 1, close)),
                return_type: if colon < after.len() {
                    trim(after.skip(colon + 1))
                } else {
                    Seq::empty()
                },
            },
        )
    }
}

/// The compact signature: the compact form of the parts of the signature
/// without its modifiers, or `method_name` where it has not the shape of a
/// signature.
pub open spec fn compacted(sig: Seq<char>, method_name: Seq<char>) -> Seq<char> {
    match signature_parts(without_modifiers(sig), method_name) {
        Some(p) => compact_form(p.name, p.params, p.return_type),
        None => method_name,
    }
}

/// The compact signature of a node that carries a signature.
pub open spec fn node_signature(node: NodeView) -> Option<Seq<char>> {
    match node.signature {
        Some(sig) => Some(compacted(sig, node.name)),
        None => None,
    }
}

/// The texts of a list of pairs of strings.
pub open spec fn pair_texts(v: Seq<(String, String)>) -> Seq<(Seq<char>, Seq<char>)> {
    v.map_values(|p: (String, String)| (p.0@, p.1@))
}

/// The texts of a list of pairs of character vectors.
pub open spec fn pair_seqs(v: Seq<(Vec<char>, Vec<char>)>) -> Seq<(Seq<char>, Seq<char>)> {
    v.map_values(|p: (Vec<char>, Vec<char>)| (p.0@, p.1@))
}

pub proof fn lemma_pair_texts_push(v: Seq<(String, String)>, p: (String, String))
    ensures
        pair_texts(v.push(p)) == pair_texts(v).push((p.0@, p.1@)),
{
    assert(pair_texts(v.push(p)) =~= pair_texts(v).push((p.0@, p.1@)));
}

pub proof fn lemma_pair_seqs_push(v: Seq<(Vec<char>, Vec<char>)>, p: (Vec<char>, Vec<char>))
    ensures
        pair_seqs(v.push(p)) == pair_seqs(v).push((p.0@, p.1@)),
{
    assert(pair_seqs(v.push(p)) =~= pair_seqs(v).push((p.0@, p.1@)));
}

fn find_matching_paren(v: &Vec<char>, start: usize) -> (r: Option<usize>)
    ensures
        match r {
            Some(i) => i == closing_paren(v@, start as int, 0) && start <= i < v.len() && v@[i as int]
                == ')',
            None => closing_paren(v@, start as int, 0) == -1,
        },
{
    let mut depth: i128 = 0;
    let mut i: usize = start;
    while i < v.len()
        invariant
            start <= i,
            -(i as int) <= depth <= i as int,
            closing_paren(v@, start as int, 0) == closing_paren(v@, i as int, depth as int),
        decreases v.len() - i,
    {
        if v[i] == '(' {
            depth += 1;
        } else if v[i] == ')' {
            depth -= 1;
            if depth == 0 {
                return Some(i);
            }
        }
        i += 1;
    }
    None
}

fn split_parameters(v: &Vec<char>) -> (r: Vec<Vec<char>>)
    ensures
        seqs_of(r@) == parameter_pieces(v@),
{
    let mut parts: Vec<Vec<char>> = Vec::new();
    let mut current: Vec<char> = Vec::new();
    let mut depth: i128 = 0;
    let mut i: usize = 0;
    assert(seqs_of(parts@) =~= Seq::<Seq<char>>::empty());
    while i < v.len()
        invariant
            i <= v.len(),
            -(i as int) <= depth <= i as int,
            seqs_of(parts@) == parameter_scan(v@, i as nat).parts,
            current@ == parameter_scan(v@, i as nat).current,
            depth == parameter_scan(v@, i as nat).depth,
        decreases v.len() - i,
    {
        let c = v[i];
        if c == '<' || c == '(' || c == '[' {
            depth += 1;
            current.push(c);
        } else if c == '>' || c == ')' || c == ']' {
            depth -= 1;
            current.push(c);
        } else if c == ',' && depth == 0 {
            let t = trim_chars(&current);
            if t.len() > 0 {
                proof {
                    lemma_seqs_of_push(parts@, t);
                }
                parts.push(t);
                current = Vec::new();
            }
        } else {
            current.push(c);
        }
        i += 1;
    }
    let t = trim_chars(&current);
    if t.len() > 0 {
        proof {
            lemma_seqs_of_push(parts@, t);
        }
        parts.push(t);
    }
    parts
}

fn parse_single_parameter(param: &Vec<char>) -> (r: Option<(Vec<char>, Vec<char>)>)
    ensures
        match r {
            Some(p) => parameter_pair(param@) == Some((p.0@, p.1@)),
            None => parameter_pair(param@).is_none(),
        },
{
    let eq = find_char(param, '=');
    let p = slice_of(param, 0, eq);
    assert(p@ == param@.take(eq as int));
    let colon = find_char(&p, ':');
    if colon >= p.len() {
        return None;
    }
    let name_raw = slice_of(&p, 0, colon);
    assert(name_raw@ == p@.take(colon as int));
    let type_raw = slice_of(&p, colon + 1, p.len());
    assert(type_raw@ == p@.skip(colon + 1));
    let name_part = trim_chars(&name_raw);
    let mut type_part = trim_chars(&type_raw);
    if name_part.len() > 0 && name_part[name_part.len() - 1] == '?' {
        let name = slice_of(&name_part, 0, name_part.len() - 1);
        assert(name@ == name_part@.drop_last());
        if !(type_part.len() > 0 && type_part[type_part.len() - 1] == '?') {
            type_part.push('?');
        }
        Some((name, type_part))
    } else {
        Some((name_part, type_part))
    }
}

fn parse_parameters_chars(v: &Vec<char>) -> (r: Vec<(Vec<char>, Vec<char>)>)
    ensures
        pair_seqs(r@) == parameters(v@),
{
    let mut params: Vec<(Vec<char>, Vec<char>)> = Vec::new();
    assert(pair_seqs(params@) =~= Seq::<(Seq<char>, Seq<char>)>::empty());
    if trim_chars(v).len() == 0 {
        return params;
    }
    let parts = split_parameters(v);
    let mut i: usize = 0;
    while i < parts.len()
        invariant
            i <= parts.len(),
            pair_seqs(params@) == parameter_pairs(seqs_of(parts@), i as nat),
        decreases parts.len() - i,
    {
        match parse_single_parameter(&parts[i]) {
            Some(p) => {
                let ghost before = params@;
                params.push(p);
                assert(pair_seqs(params@) =~= pair_seqs(before).push((p.0@, p.1@)));
            },
            None => {},
        }
        i += 1;
    }
    params
}

fn normalize_optional_chars(v: &Vec<char>) -> (r: Vec<char>)
    ensures
        r@ == normalized_optional(v@),
{
    let s = trim_chars(v);
    if has_char(&s, '|') {
        let parts = split_chars(&s, '|');
        let mut members: Vec<Vec<char>> = Vec::new();
        let mut i: usize = 0;
        assert(seqs_of(members@) =~= Seq::<Seq<char>>::empty());
        while i < parts.len()
            invariant
                i <= parts.len(),
                seqs_of(members@) == union_members(seqs_of(parts@), i as nat),
            decreases parts.len() - i,
        {
            let t = trim_chars(&parts[i]);
            if !(is_literal(&t, "null") || is_literal(&t, "undefined")) {
                proof {
                    lemma_seqs_of_push(members@, t);
                }
                members.push(t);
            }
            i += 1;
        }
        if members.len() == 1 {
            let mut r = members[0].clone();
            assert(r@ == members@[0]@);
            r.push('?');
            return r;
        } else if members.len() > 1 {
            let r = members[0].clone();
            assert(r@ == members@[0]@);
            return r;
        }
    }
    s
}

fn compact_type_chars(v: &Vec<char>) -> (r: Vec<char>)
    ensures
        r@ == compact_type(v@),
{
    let n = normalize_optional_chars(v);
    abbreviate_type(&n)
}

fn format_compact_chars(name: &Vec<char>, params: &Vec<(Vec<char>, Vec<char>)>, ret: &Vec<char>)
    -> (r: Vec<char>)
    ensures
        r@ == compact_form(name@, pair_seqs(params@), ret@),
{
    let mut rendered: Vec<Vec<char>> = Vec::new();
    let mut i: usize = 0;
    assert(seqs_of(rendered@) =~= Seq::<Seq<char>>::empty());
    while i < params.len()
        invariant
            i <= params.len(),
            seqs_of(rendered@) == rendered_parameters(pair_seqs(params@), i as nat),
        decreases params.len() - i,
    {
        let mut item = params[i].0.clone();
        assert(item@ == params@[i as int].0@);
        assert(pair_seqs(params@)[i as int] == (params@[i as int].0@, params@[i as int].1@));
        item.push(':');
        append_chars(&mut item, &compact_type_chars(&params[i].1));
        proof {
            lemma_seqs_of_push(rendered@, item);
            assert(item@ =~= params@[i as int].0@ + seq![':'] + compact_type(
                params@[i as int].1@,
            ));
        }
        rendered.push(item);
        i += 1;
    }
    let mut out = name.clone();
    assert(out@ == name@);
    out.push('(');
    let mut comma: Vec<char> = Vec::new();
    comma.push(',');
    append_chars(&mut out, &join_chars(&rendered, &comma));
    out.push(')');
    let compact_return = compact_type_chars(ret);
    if compact_return.len() == 0 || is_literal(&compact_return, "void") {
        out
    } else {
        out.push(':');
        append_chars(&mut out, &compact_return);
        out
    }
}

/// The parts of a signature given as characters.
pub struct ParsedSignature {
    pub name: Vec<char>,
    pub params: Vec<(Vec<char>, Vec<char>)>,
    pub return_type: Vec<char>,
}

impl View for ParsedSignature {
    type V = SignatureParts;

    open spec fn view(&self) -> SignatureParts {
        SignatureParts {
            name: self.name@,
            params: pair_seqs(self.params@),
            return_type: self.return_type@,
        }
    }
}

fn parse_signature(sig: &Vec<char>, fallback_name: &Vec<char>) -> (r: Option<ParsedSignature>)
    ensures
        match r {
            Some(p) => signature_parts(sig@, fallback_name@) == Some(p@),
            None => signature_parts(sig@, fallback_name@).is_none(),
        },
{
    let open = find_char(sig, '(');
    if open >= sig.len() {
        return None;
    }
    let close = match find_matching_paren(sig, open) {
        Some(c) => c,
        None => {
            return None;
        },
    };
    proof {
        lemma_first_index(sig@, '(');
    }
    let name_raw = slice_of(sig, 0, open);
    assert(name_raw@ == sig@.take(open as int));
    let trimmed_name = trim_chars(&name_raw);
    let name = if trimmed_name.len() == 0 {
        fallback_name.clone()
    } else {
        trimmed_name
    };
    let params_str = slice_of(sig, open + 1, close);
    let params = parse_parameters_chars(&params_str);
    let after = slice_of(sig, close, sig.len());
    assert(after@ == sig@.skip(close as int));
    let colon = find_char(&after, ':');
    let return_type = if colon < after.len() {
        let rest = slice_of(&after, colon + 1, after.len());
        assert(rest@ == after@.skip(colon + 1));
        trim_chars(&rest)
    } else {
        Vec::new()
    };
    Some(ParsedSignature { name, params, return_type })
}

fn compact_signature_chars(sig: &Vec<char>, method_name: &Vec<char>) -> (r: Vec<char>)
    ensures
        r@ == compacted(sig@, method_name@),
{
    proof {
        reveal_strlit("async ");
        reveal_strlit("export ");
        reveal_strlit("public ");
        reveal_strlit("private ");
        reveal_strlit("protected ");
        reveal_strlit("static ");
    }
    let c1 = replace_lit(sig, "async ", "");
    let c2 = replace_lit(&c1, "export ", "");
    let c3 = replace_lit(&c2, "public ", "");
    let c4 = replace_lit(&c3, "private ", "");
    let c5 = replace_lit(&c4, "protected ", "");
    let cleaned = replace_lit(&c5, "static ", "");
    match parse_signature(&cleaned, method_name) {
        Some(p) => format_compact_chars(&p.name, &p.params, &p.return_type),
        None => method_name.clone(),
    }
}

/// Extracts compact signatures of methods and functions.
pub struct SignatureExtractor;

impl SignatureExtractor {
    /// The compact signature of a node, where the node carries a signature.
    pub fn extract_signature(node: &SymbolNode) -> (r: Option<String>)
        ensures
            opt_text(r) == node_signature(node@),
    {
        match &node.signature {
            Some(sig) => Some(Self::compact_signature(sig.as_str(), node.name.as_str())),
            None => None,
        }
    }

    /// The compact signature of a node, where the node carries a signature.
    /// The cache is not changed: a cached file adds nothing to a node
    /// without a signature.
    pub fn extract_signature_with_cache(node: &SymbolNode, file_path: &str, cache: &mut AstCache)
        -> (r: Option<String>)
        ensures
            opt_text(r) == node_signature(node@),
            final(cache)@ == old(cache)@,
    {
        match &node.signature {
            Some(sig) => Some(Self::compact_signature(sig.as_str(), node.name.as_str())),
            None => {
                let _ast = cache.get(file_path);
                None
            },
        }
    }

    /// Compacts a signature: modifiers out, types abbreviated, white space
    /// dropped. Where the text has not the shape of a signature, the result
    /// is `method_name`.
    pub fn compact_signature(sig: &str, method_name: &str) -> (r: String)
        ensures
            r@ == compacted(sig@, method_name@),
    {
        let s = chars_of(sig);
        let m = chars_of(method_name);
        string_of(&compact_signature_chars(&s, &m))
    }

    /// The parameters written in a parameter list, as pairs of name and
    /// type.
    pub fn parse_parameters(params_str: &str) -> (r: Vec<(String, String)>)
        ensures
            pair_texts(r@) == parameters(params_str@),
    {
        let v = chars_of(params_str);
        let pairs = parse_parameters_chars(&v);
        let mut r: Vec<(String, String)> = Vec::new();
        let mut i: usize = 0;
        assert(pair_texts(r@) =~= pair_seqs(pairs@.take(0)));
        while i < pairs.len()
            invariant
                i <= pairs.len(),
                pair_texts(r@) == pair_seqs(pairs@.take(i as int)),
            decreases pairs.len() - i,
        {
            let a = string_of(&pairs[i].0);
            let b = string_of(&pairs[i].1);
            proof {
                lemma_pair_texts_push(r@, (a, b));
                assert(pairs@.take(i + 1) == pairs@.take(i as int).push(pairs@[i as int]));
                lemma_pair_seqs_push(pairs@.take(i as int), pairs@[i as int]);
            }
            r.push((a, b));
            i += 1;
        }
        assert(pairs@.take(pairs.len() as int) == pairs@);
        r
    }

    /// Renders name, parameters and return type in compact form.
    pub fn format_compact_signature(name: &str, params: &[(String, String)], return_type: &str)
        -> (r: String)
        ensures
            r@ == compact_form(name@, pair_texts(params@), return_type@),
    {
        let mut pairs: Vec<(Vec<char>, Vec<char>)> = Vec::new();
        let mut i: usize = 0;
        assert(pair_seqs(pairs@) =~= pair_texts(params@.take(0)));
        while i < params.len()
            invariant
                i <= params.len(),
                pair_seqs(pairs@) == pair_texts(params@.take(i as int)),
            decreases params.len() - i,
        {
            let a = chars_of(params[i].0.as_str());
            let b = chars_of(params[i].1.as_str());
            proof {
                lemma_pair_seqs_push(pairs@, (a, b));
                assert(params@.take(i + 1) == params@.take(i as int).push(params@[i as int]));
                lemma_pair_texts_push(params@.take(i as int), params@[i as int]);
            }
            pairs.push((a, b));
            i += 1;
        }
        assert(params@.take(params.len() as int) == params@);
        let n = chars_of(name);
        let rt = chars_of(return_type);
        string_of(&format_compact_chars(&n, &pairs, &rt))
    }

    /// Reduces a union type with `null` or `undefined` to an optional type,
    /// and any other union to its first member.
    pub fn normalize_optional_type(type_str: &str) -> (r: String)
        ensures
            r@ == normalized_optional(type_str@),
    {
        let v = chars_of(type_str);
        string_of(&normalize_optional_chars(&v))
    }
}

} // verus!
