//! Laws of type abbreviation: abbreviating twice gives what abbreviating
//! once gives, whatever the text.

use vstd::prelude::*;
use crate::text::{
    first_index, is_space, join, leading_spaces, lemma_first_index, lemma_first_index_at,
    lemma_leading_spaces, lemma_leading_spaces_at, lemma_trailing_spaces,
    lemma_trailing_spaces_at, trim,
};
use crate::type_abbreviator::{
    abbreviated_type, abbreviation, abbreviations, generic_parts, generic_scan, is_generic,
    lemma_abbreviated_generic, lemma_trim_len, piece, scan_start, scan_step, simple_abbreviation,
    GenericScan,
};

verus! {

/// Whether every character of `s` is white space.
pub open spec fn blank(s: Seq<char>) -> bool {
    forall|i: int| 0 <= i < s.len() ==> is_space(#[trigger] s[i])
}

/// Whether white space stands neither at the start of `s` nor at its end.
pub open spec fn trimmed(s: Seq<char>) -> bool {
    s.len() == 0 || (!is_space(s[0]) && !is_space(s.last()))
}

/// Trimming leaves a trimmed text as it is.
pub proof fn lemma_trimmed_fixed(s: Seq<char>)
    requires
        trimmed(s),
    ensures
        trim(s) == s,
{
    lemma_leading_spaces_at(s, 0);
    assert(s.skip(0) =~= s);
    lemma_trailing_spaces_at(s, 0);
    assert(s.take(s.len() as int) =~= s);
}

/// A text is white space, then its trimmed form, then white space.
pub proof fn lemma_trim_parts(s: Seq<char>)
    ensures
        0 <= leading_spaces(s),
        leading_spaces(s) + trim(s).len() <= s.len(),
        s == s.take(leading_spaces(s)) + trim(s) + s.skip(leading_spaces(s) + trim(s).len()),
        blank(s.take(leading_spaces(s))),
        blank(s.skip(leading_spaces(s) + trim(s).len())),
        trimmed(trim(s)),
{
    lemma_leading_spaces(s);
    let a = leading_spaces(s);
    let m = s.skip(a);
    lemma_trailing_spaces(m);
    let n = trim(s).len() as int;
    assert(s =~= s.take(a) + trim(s) + s.skip(a + n));
    assert forall|i: int| 0 <= i < s.skip(a + n).len() implies is_space(
        #[trigger] s.skip(a + n)[i],
    ) by {
        assert(s.skip(a + n)[i] == m[n + i]);
    }
    if n > 0 {
        assert(trim(s)[0] == s[a]);
        assert(trim(s).last() == m[n - 1]);
    }
}

/// The number of `<` less the number of `>` among the first `n`
/// characters.
pub open spec fn level(x: Seq<char>, n: nat) -> int
    decreases n,
{
    if n == 0 {
        0
    } else {
        level(x, (n - 1) as nat) + (if x[n - 1] == '<' {
            1int
        } else if x[n - 1] == '>' {
            -1int
        } else {
            0int
        })
    }
}

/// The number of `<` less the number of `>` in `x`.
pub open spec fn net(x: Seq<char>) -> int {
    level(x, x.len())
}

/// Whether a comma stands at `i` where as many `>` as `<` came before it,
/// counted from `d`.
pub open spec fn split_at(x: Seq<char>, d: int, i: int) -> bool {
    0 <= i < x.len() && x[i] == ',' && d + level(x, i as nat) == 0
}

/// Whether a scan that enters `x` at depth `d` cuts it somewhere.
pub open spec fn splits(x: Seq<char>, d: int) -> bool {
    exists|i: int| split_at(x, d, i)
}

/// Whether `x` holds none of `<`, `>` and `,`.
pub open spec fn clean_name(x: Seq<char>) -> bool {
    forall|i: int| 0 <= i < x.len() ==> x[i] != '<' && x[i] != '>' && x[i] != ','
}

/// Whether `x` holds no `c`.
pub open spec fn lacks(x: Seq<char>, c: char) -> bool {
    forall|i: int| 0 <= i < x.len() ==> x[i] != c
}

pub proof fn lemma_level_concat(a: Seq<char>, b: Seq<char>, i: nat)
    requires
        i <= a.len() + b.len(),
    ensures
        level(a + b, i) == (if i <= a.len() {
            level(a, i)
        } else {
            level(a, a.len()) + level(b, (i - a.len()) as nat)
        }),
    decreases i,
{
    if i > 0 {
        lemma_level_concat(a, b, (i - 1) as nat);
        if i <= a.len() {
            assert((a + b)[i - 1] == a[i - 1]);
        } else {
            assert((a + b)[i - 1] == b[i - 1 - a.len()]);
            let k = (i - a.len()) as nat;
            assert(level(b, k) == level(b, (k - 1) as nat) + (if b[k - 1] == '<' {
                1int
            } else if b[k - 1] == '>' {
                -1int
            } else {
                0int
            }));
            if k == 1 {
                assert(level(b, 0) == 0);
            }
        }
    }
}

/// The brackets of two texts set one after the other add up.
pub proof fn lemma_net_concat(a: Seq<char>, b: Seq<char>)
    ensures
        net(a + b) == net(a) + net(b),
{
    lemma_level_concat(a, b, a.len() + b.len());
    if b.len() == 0 {
        assert(level(b, 0) == 0);
    }
}

/// A scan cuts two texts set one after the other where it cuts the first,
/// or the second at the depth that the first leaves.
pub proof fn lemma_splits_concat(a: Seq<char>, b: Seq<char>, d: int)
    ensures
        splits(a + b, d) == (splits(a, d) || splits(b, d + net(a))),
{
    let x = a + b;
    if splits(x, d) {
        let i = choose|i: int| split_at(x, d, i);
        lemma_level_concat(a, b, i as nat);
        if i < a.len() {
            assert(x[i] == a[i]);
            assert(split_at(a, d, i));
        } else {
            let k = i - a.len();
            assert(x[i] == b[k]);
            assert(level(b, 0) == 0);
            assert(split_at(b, d + net(a), k));
        }
    }
    if splits(a, d) {
        let i = choose|i: int| split_at(a, d, i);
        lemma_level_concat(a, b, i as nat);
        assert(x[i] == a[i]);
        assert(split_at(x, d, i));
    }
    if splits(b, d + net(a)) {
        let e = d + net(a);
        let k = choose|k: int| split_at(b, e, k);
        let i = a.len() + k;
        lemma_level_concat(a, b, i as nat);
        assert(x[i] == b[k]);
        assert(level(b, 0) == 0);
        assert(split_at(x, d, i));
    }
}

pub proof fn lemma_level_clean(x: Seq<char>, i: nat)
    requires
        clean_name(x),
        i <= x.len(),
    ensures
        level(x, i) == 0,
    decreases i,
{
    if i > 0 {
        lemma_level_clean(x, (i - 1) as nat);
    }
}

/// A text without `<`, `>` and `,` changes no depth and is cut nowhere.
pub proof fn lemma_clean(x: Seq<char>)
    requires
        clean_name(x),
    ensures
        net(x) == 0,
        forall|d: int| !splits(x, d),
{
    lemma_level_clean(x, x.len());
    assert forall|d: int| !splits(x, d) by {
        if splits(x, d) {
            let i = choose|i: int| split_at(x, d, i);
            assert(x[i] == ',');
        }
    }
}

/// White space is no `<`, `>` or `,`.
pub proof fn lemma_blank_clean(x: Seq<char>)
    requires
        blank(x),
    ensures
        clean_name(x),
{
    assert forall|i: int| 0 <= i < x.len() implies x[i] != '<' && x[i] != '>' && x[i] != ',' by {
        assert(is_space(x[i]));
    }
}

/// Trimming changes neither the depth that a text leaves nor whether a
/// scan cuts it.
pub proof fn lemma_trim_level(s: Seq<char>)
    ensures
        net(trim(s)) == net(s),
        forall|d: int| splits(trim(s), d) == splits(s, d),
{
    lemma_trim_parts(s);
    let a = leading_spaces(s);
    let t = trim(s);
    let pre = s.take(a);
    let post = s.skip(a + t.len());
    lemma_blank_clean(pre);
    lemma_blank_clean(post);
    lemma_clean(pre);
    lemma_clean(post);
    lemma_net_concat(pre, t);
    lemma_net_concat(pre + t, post);
    assert forall|d: int| splits(t, d) == splits(s, d) by {
        lemma_splits_concat(pre, t, d);
        lemma_splits_concat(pre + t, post, d);
        assert(!splits(pre, d));
        assert(!splits(post, d + net(pre + t)));
    }
}

/// The scan continued from the state `st` over the first `n` characters of
/// `x`.
pub open spec fn scan_from(st: GenericScan, x: Seq<char>, n: nat) -> GenericScan
    decreases n,
{
    if n == 0 {
        st
    } else {
        scan_step(scan_from(st, x, (n - 1) as nat), x[n - 1])
    }
}

/// The scan of a prefix does not depend on what follows.
pub proof fn lemma_scan_prefix(a: Seq<char>, b: Seq<char>, n: nat)
    requires
        n <= a.len(),
    ensures
        generic_scan(a + b, n) == generic_scan(a, n),
    decreases n,
{
    if n > 0 {
        lemma_scan_prefix(a, b, (n - 1) as nat);
        assert((a + b)[n - 1] == a[n - 1]);
    }
}

/// The scan of two texts set one after the other is the scan of the first,
/// continued over the second.
pub proof fn lemma_scan_concat(a: Seq<char>, x: Seq<char>, n: nat)
    requires
        n <= x.len(),
    ensures
        generic_scan(a + x, a.len() + n) == scan_from(generic_scan(a, a.len()), x, n),
    decreases n,
{
    if n == 0 {
        lemma_scan_prefix(a, x, a.len());
    } else {
        lemma_scan_concat(a, x, (n - 1) as nat);
        assert((a + x)[a.len() + n - 1] == x[n - 1]);
    }
}

/// The depth of the scan is the number of `<` less the number of `>` that
/// it has passed.
pub proof fn lemma_scan_depth(x: Seq<char>, n: nat)
    requires
        n <= x.len(),
    ensures
        generic_scan(x, n).depth == level(x, n),
    decreases n,
{
    if n > 0 {
        lemma_scan_depth(x, (n - 1) as nat);
    }
}

/// A scan that nothing cuts gathers what it passes in the current piece.
pub proof fn lemma_scan_unsplit(st: GenericScan, x: Seq<char>, n: nat)
    requires
        n <= x.len(),
        !splits(x, st.depth),
    ensures
        scan_from(st, x, n) == (GenericScan {
            parts: st.parts,
            current: st.current + x.take(n as int),
            depth: st.depth + level(x, n),
        }),
    decreases n,
{
    if n == 0 {
        assert(st.current + x.take(0) =~= st.current);
    } else {
        lemma_scan_unsplit(st, x, (n - 1) as nat);
        assert(!split_at(x, st.depth, n - 1));
        assert((st.current + x.take(n - 1)).push(x[n - 1]) =~= st.current + x.take(n as int));
    }
}

/// A scan that starts with pieces in hand adds to them what it would have
/// found without.
pub proof fn lemma_scan_shift(p: Seq<Seq<char>>, x: Seq<char>, n: nat)
    requires
        n <= x.len(),
    ensures
        scan_from(GenericScan { parts: p, current: Seq::empty(), depth: 0 }, x, n) == (GenericScan {
            parts: p + generic_scan(x, n).parts,
            current: generic_scan(x, n).current,
            depth: generic_scan(x, n).depth,
        }),
    decreases n,
{
    let st = GenericScan { parts: p, current: Seq::empty(), depth: 0 };
    if n == 0 {
        assert(p + generic_scan(x, 0).parts =~= p);
    } else {
        lemma_scan_shift(p, x, (n - 1) as nat);
        let g = generic_scan(x, (n - 1) as nat);
        assert((p + g.parts) + piece(g.current) =~= p + (g.parts + piece(g.current)));
    }
}

/// A text that the scan cuts nowhere is one piece.
pub proof fn lemma_parts_single(x: Seq<char>)
    requires
        !splits(x, 0),
    ensures
        generic_parts(x) == piece(x),
{
    let e = Seq::<char>::empty();
    lemma_scan_concat(e, x, x.len());
    assert(e + x =~= x);
    lemma_scan_unsplit(scan_start(), x, x.len());
    assert(e + x.take(x.len() as int) =~= x);
    assert(Seq::<Seq<char>>::empty() + piece(x) =~= piece(x));
}

/// At a comma that the scan cuts at, the pieces are those before it and
/// those after it.
pub proof fn lemma_parts_unfold(x: Seq<char>, i: int)
    requires
        split_at(x, 0, i),
    ensures
        generic_parts(x) == generic_parts(x.take(i)) + generic_parts(x.skip(i + 1)),
{
    let a = x.take(i);
    let a1 = x.take(i + 1);
    let rest = x.skip(i + 1);
    assert(a1 + rest =~= x);
    assert(a + seq![','] =~= a1);
    assert(a + x.skip(i) =~= x);
    lemma_level_concat(a, x.skip(i), i as nat);
    lemma_scan_depth(a, i as nat);
    lemma_scan_prefix(a, seq![','], i as nat);
    let sa = generic_scan(a, i as nat);
    assert(a1[i] == ',');
    assert(generic_scan(a1, (i + 1) as nat) == scan_step(generic_scan(a1, i as nat), a1[i]));
    assert(generic_scan(a1, a1.len()) == (GenericScan {
        parts: generic_parts(a),
        current: Seq::empty(),
        depth: 0,
    }));
    lemma_scan_concat(a1, rest, rest.len());
    lemma_scan_shift(generic_parts(a), rest, rest.len());
    let g = generic_scan(rest, rest.len());
    assert((generic_parts(a) + g.parts) + piece(g.current) =~= generic_parts(a) + (g.parts + piece(
        g.current,
    )));
}

/// The join of one more element.
pub proof fn lemma_join_push(q: Seq<Seq<char>>, x: Seq<char>, sep: Seq<char>)
    ensures
        join(q.push(x), sep) == (if q.len() == 0 {
            x
        } else {
            join(q, sep) + sep + x
        }),
{
    assert(q.push(x).drop_last() =~= q);
    if q.len() == 0 {
        assert(q.push(x)[0] == x);
    }
}

/// The join of two lists set one after the other.
pub proof fn lemma_join_concat(a: Seq<Seq<char>>, b: Seq<Seq<char>>, sep: Seq<char>)
    ensures
        join(a + b, sep) == (if a.len() == 0 {
            join(b, sep)
        } else if b.len() == 0 {
            join(a, sep)
        } else {
            join(a, sep) + sep + join(b, sep)
        }),
    decreases b.len(),
{
    if a.len() == 0 {
        assert(a + b =~= b);
    } else if b.len() == 0 {
        assert(a + b =~= a);
    } else {
        let front = b.drop_last();
        assert(a + b =~= (a + front).push(b.last()));
        lemma_join_push(a + front, b.last(), sep);
        lemma_join_concat(a, front, sep);
        assert(front.push(b.last()) =~= b);
        lemma_join_push(front, b.last(), sep);
        if front.len() > 0 {
            assert((join(a, sep) + sep + join(front, sep)) + sep + b.last() =~= join(a, sep) + sep
                + (join(front, sep) + sep + b.last()));
        }
    }
}

/// What the lookup of a simple name keeps: the result is trimmed, leaves
/// the depth that the name leaves, is cut only where the name is, and is
/// its own lookup. A result that differs from the trimmed name is one of
/// the short names.
pub proof fn lemma_simple_abbreviation(x: Seq<char>)
    ensures
        trimmed(simple_abbreviation(x)),
        net(simple_abbreviation(x)) == net(x),
        forall|d: int| splits(simple_abbreviation(x), d) ==> splits(x, d),
        simple_abbreviation(simple_abbreviation(x)) == simple_abbreviation(x),
        (simple_abbreviation(x).len() == 0) == (trim(x).len() == 0),
        lacks(x, '<') ==> lacks(simple_abbreviation(x), '<'),
        simple_abbreviation(x) != trim(x) ==> simple_abbreviation(x).len() > 0
            && simple_abbreviation(x).last() != ']' && simple_abbreviation(x).last() != '?'
            && simple_abbreviation(x).last() != '>',
{
    reveal_strlit("string");
    reveal_strlit("number");
    reveal_strlit("boolean");
    reveal_strlit("str");
    reveal_strlit("num");
    reveal_strlit("bool");
    let t = trim(x);
    let r = simple_abbreviation(x);
    lemma_trim_parts(x);
    lemma_trim_level(x);
    assert("string"@.len() == 6 && "number"@.len() == 6 && "boolean"@.len() == 7);
    if r == t {
        lemma_trimmed_fixed(t);
        if lacks(x, '<') {
            assert forall|i: int| 0 <= i < r.len() implies r[i] != '<' by {
                assert(r[i] == x[leading_spaces(x) + i]);
            }
        }
    } else {
        assert(r.len() <= 4);
        assert(clean_name(r));
        assert(clean_name(t));
        lemma_clean(r);
        lemma_clean(t);
        assert(trimmed(r));
        lemma_trimmed_fixed(r);
    }
}

/// What holds of the abbreviation `r` of a type `s`: it is trimmed, leaves
/// the depth that `s` leaves, is cut only where `s` is, is empty only where
/// `s` is blank, and is its own abbreviation.
pub open spec fn settled(s: Seq<char>, r: Seq<char>) -> bool {
    &&& trimmed(r)
    &&& net(r) == net(s)
    &&& forall|d: int| splits(r, d) ==> splits(s, d)
    &&& (r.len() == 0) == (trim(s).len() == 0)
    &&& abbreviated_type(r) == r
}

/// What holds of the abbreviated parameters of the parameter text `x`,
/// joined by commas: the join leaves the depth that `x` leaves, is cut only
/// where `x` is, its parameters are the abbreviated ones, and each of them
/// is its own abbreviation.
pub open spec fn parameters_settled(x: Seq<char>) -> bool {
    let q = abbreviations(generic_parts(x));
    let j = join(q, ","@);
    &&& net(j) == net(x)
    &&& forall|d: int| splits(j, d) ==> splits(x, d)
    &&& generic_parts(j) == q
    &&& abbreviations(q) == q
}

/// A suffix without `<`, `>`, `,` and white space carries over what holds
/// of the abbreviation before it, but for the last point.
proof fn lemma_suffix_carried(s: Seq<char>, b: Seq<char>, rb: Seq<char>, suffix: Seq<char>)
    requires
        trim(s) == b + suffix,
        suffix.len() > 0,
        clean_name(suffix),
        !is_space(suffix[0]),
        !is_space(suffix.last()),
        settled(b, rb),
    ensures
        trimmed(rb + suffix),
        net(rb + suffix) == net(s),
        forall|d: int| splits(rb + suffix, d) ==> splits(s, d),
        trim(rb + suffix) == rb + suffix,
{
    let r = rb + suffix;
    lemma_trim_level(s);
    lemma_clean(suffix);
    lemma_net_concat(b, suffix);
    lemma_net_concat(rb, suffix);
    assert forall|d: int| splits(r, d) implies splits(s, d) by {
        lemma_splits_concat(rb, suffix, d);
        lemma_splits_concat(b, suffix, d);
        assert(!splits(suffix, d + net(rb)));
        assert(splits(rb, d));
        assert(splits(b, d));
        assert(splits(trim(s), d));
    }
    if rb.len() > 0 {
        assert(r[0] == rb[0]);
    } else {
        assert(r[0] == suffix[0]);
    }
    assert(r.last() == suffix.last());
    lemma_trimmed_fixed(r);
}

/// An array is settled where what stands before its `[]` is.
proof fn lemma_array_settled(s: Seq<char>)
    requires
        trim(s).len() >= 2,
        "[]"@.is_suffix_of(trim(s)),
        settled(
            trim(s).take(trim(s).len() - 2),
            abbreviated_type(trim(s).take(trim(s).len() - 2)),
        ),
    ensures
        settled(s, abbreviated_type(s)),
{
    reveal_strlit("[]");
    let t = trim(s);
    let b = t.take(t.len() - 2);
    let rb = abbreviated_type(b);
    let r = rb + "[]"@;
    assert(t =~= b + "[]"@);
    lemma_suffix_carried(s, b, rb, "[]"@);
    assert("[]"@ =~= r.subrange(r.len() - 2, r.len() as int));
    assert(r.take(r.len() - 2) =~= rb);
}

/// An optional is settled where what stands before its `?` is.
proof fn lemma_optional_settled(s: Seq<char>)
    requires
        !(trim(s).len() >= 2 && "[]"@.is_suffix_of(trim(s))),
        trim(s).len() >= 1,
        "?"@.is_suffix_of(trim(s)),
        settled(
            trim(s).take(trim(s).len() - 1),
            abbreviated_type(trim(s).take(trim(s).len() - 1)),
        ),
    ensures
        settled(s, abbreviated_type(s)),
{
    reveal_strlit("[]");
    reveal_strlit("?");
    let t = trim(s);
    let b = t.take(t.len() - 1);
    let rb = abbreviated_type(b);
    let r = rb + "?"@;
    assert(t =~= b + "?"@);
    lemma_suffix_carried(s, b, rb, "?"@);
    assert("?"@ =~= r.subrange(r.len() - 1, r.len() as int));
    assert(r.take(r.len() - 1) =~= rb);
    if r.len() >= 2 && "[]"@.is_suffix_of(r) {
        assert(r.subrange(r.len() - 2, r.len() as int)[1] == r.last());
    }
}

/// A simple name is settled.
proof fn lemma_name_settled(s: Seq<char>)
    requires
        !(trim(s).len() >= 2 && "[]"@.is_suffix_of(trim(s))),
        !(trim(s).len() >= 1 && "?"@.is_suffix_of(trim(s))),
        !is_generic(trim(s)),
    ensures
        settled(s, abbreviated_type(s)),
{
    reveal_strlit("[]");
    reveal_strlit("?");
    let t = trim(s);
    let r = simple_abbreviation(t);
    lemma_trim_parts(s);
    lemma_trim_level(s);
    lemma_trimmed_fixed(t);
    lemma_simple_abbreviation(t);
    lemma_trimmed_fixed(r);
    if r != t {
        if r.len() >= 2 && "[]"@.is_suffix_of(r) {
            assert(r.subrange(r.len() - 2, r.len() as int)[1] == r.last());
        }
        if r.len() >= 1 && "?"@.is_suffix_of(r) {
            assert(r.subrange(r.len() - 1, r.len() as int)[0] == r.last());
        }
    }
}

/// What one character does to a scan: a bracket moves the depth, a comma
/// is a cut at depth zero.
proof fn lemma_single(c: char)
    ensures
        net(seq![c]) == (if c == '<' {
            1int
        } else if c == '>' {
            -1int
        } else {
            0int
        }),
        forall|d: int| splits(seq![c], d) == (c == ',' && d == 0),
{
    let x = seq![c];
    assert(level(x, 0) == 0);
    assert(level(x, 1) == level(x, 0) + (if x[0] == '<' {
        1int
    } else if x[0] == '>' {
        -1int
    } else {
        0int
    }));
    assert forall|d: int| splits(x, d) == (c == ',' && d == 0) by {
        if splits(x, d) {
            let i = choose|i: int| split_at(x, d, i);
            assert(i == 0);
        }
        if c == ',' && d == 0 {
            assert(split_at(x, d, 0));
        }
    }
}

/// What a scan does to a name, `<`, a parameter text and `>`, one after
/// the other.
proof fn lemma_generic_level(name: Seq<char>, inner: Seq<char>)
    ensures
        net(name + seq!['<'] + inner + seq!['>']) == net(name) + net(inner),
        forall|d: int|
            splits(name + seq!['<'] + inner + seq!['>'], d) == (splits(name, d) || splits(
                inner,
                d + net(name) + 1,
            )),
{
    let open = seq!['<'];
    let close = seq!['>'];
    lemma_single('<');
    lemma_single('>');
    lemma_net_concat(name, open);
    lemma_net_concat(name + open, inner);
    lemma_net_concat(name + open + inner, close);
    assert forall|d: int|
        splits(name + open + inner + close, d) == (splits(name, d) || splits(
            inner,
            d + net(name) + 1,
        )) by {
        lemma_splits_concat(name, open, d);
        lemma_splits_concat(name + open, inner, d);
        lemma_splits_concat(name + open + inner, close, d);
        assert(!splits(open, d + net(name)));
        assert(!splits(close, d + net(name + open + inner)));
    }
}

/// A generic is settled where its parameter text is.
proof fn lemma_generic_settled(s: Seq<char>)
    requires
        !(trim(s).len() >= 2 && "[]"@.is_suffix_of(trim(s))),
        !(trim(s).len() >= 1 && "?"@.is_suffix_of(trim(s))),
        is_generic(trim(s)),
        parameters_settled(trim(s).subrange(first_index(trim(s), '<') + 1, trim(s).len() - 1)),
    ensures
        settled(s, abbreviated_type(s)),
{
    reveal_strlit("[]");
    reveal_strlit("?");
    reveal_strlit("<");
    reveal_strlit(">");
    let t = trim(s);
    let lt = first_index(t, '<');
    lemma_first_index(t, '<');
    lemma_trim_level(s);
    let base = t.take(lt);
    let inner = t.subrange(lt + 1, t.len() - 1);
    let name = simple_abbreviation(base);
    let q = abbreviations(generic_parts(inner));
    let j = join(q, ","@);
    let r = name + seq!['<'] + j + seq!['>'];
    assert("<"@ =~= seq!['<']);
    assert(">"@ =~= seq!['>']);
    lemma_abbreviated_generic(s);
    assert(abbreviated_type(s) == r);
    assert(t =~= base + seq!['<'] + inner + seq!['>']);
    assert(lacks(base, '<'));
    lemma_simple_abbreviation(base);
    lemma_generic_level(base, inner);
    lemma_generic_level(name, j);
    assert forall|d: int| splits(r, d) implies splits(s, d) by {
        if splits(name, d) {
            assert(splits(base, d));
        } else {
            assert(splits(j, d + net(name) + 1));
            assert(splits(inner, d + net(base) + 1));
        }
        assert(splits(t, d));
    }
    if name.len() > 0 {
        assert(r[0] == name[0]);
    } else {
        assert(r[0] == '<');
    }
    assert(r.last() == '>');
    lemma_trimmed_fixed(r);
    assert(r[name.len() as int] == '<');
    assert forall|k: int| 0 <= k < name.len() implies #[trigger] r[k] != '<' by {
        assert(r[k] == name[k]);
    }
    lemma_first_index_at(r, '<', name.len() as int);
    if r.len() >= 2 && "[]"@.is_suffix_of(r) {
        assert(r.subrange(r.len() - 2, r.len() as int)[1] == r.last());
    }
    if r.len() >= 1 && "?"@.is_suffix_of(r) {
        assert(r.subrange(r.len() - 1, r.len() as int)[0] == r.last());
    }
    assert(is_generic(r));
    lemma_abbreviated_generic(r);
    assert(r.take(name.len() as int) =~= name);
    assert(r.subrange(name.len() as int + 1, r.len() - 1) =~= j);
}

/// A parameter text that the scan cuts nowhere is settled where its one
/// parameter, if it has one, is.
proof fn lemma_parameters_single(x: Seq<char>)
    requires
        !splits(x, 0),
        trim(x).len() > 0 ==> settled(trim(x), abbreviated_type(trim(x))),
    ensures
        parameters_settled(x),
{
    let e = Seq::<char>::empty();
    let none = Seq::<Seq<char>>::empty();
    lemma_parts_single(x);
    lemma_trim_level(x);
    lemma_trim_parts(x);
    let t = trim(x);
    if t.len() == 0 {
        assert(abbreviations(none) =~= none);
        assert(join(none, ","@) == e);
        assert(net(e) == 0);
        assert(clean_name(t));
        lemma_clean(t);
        assert(clean_name(e));
        lemma_clean(e);
        lemma_parts_single(e);
        lemma_trim_len(e);
    } else {
        let a = abbreviated_type(t);
        lemma_trimmed_fixed(t);
        assert(abbreviations(seq![t]) =~= seq![a]);
        assert(join(seq![a], ","@) == a);
        assert(!splits(a, 0)) by {
            if splits(a, 0) {
                assert(splits(t, 0));
            }
        }
        lemma_parts_single(a);
        lemma_trimmed_fixed(a);
        assert(abbreviations(seq![a]) =~= seq![a]);
    }
}

/// A parameter text is settled where what stands before one of its cuts
/// and what stands after it are.
proof fn lemma_parameters_split(x: Seq<char>, i: int)
    requires
        split_at(x, 0, i),
        parameters_settled(x.take(i)),
        parameters_settled(x.skip(i + 1)),
    ensures
        parameters_settled(x),
{
    reveal_strlit(",");
    let comma = seq![','];
    assert(","@ =~= comma);
    let a = x.take(i);
    let rest = x.skip(i + 1);
    let qa = abbreviations(generic_parts(a));
    let qr = abbreviations(generic_parts(rest));
    let ja = join(qa, ","@);
    let jr = join(qr, ","@);
    let q = abbreviations(generic_parts(x));
    let j = join(q, ","@);
    lemma_parts_unfold(x, i);
    assert(q =~= qa + qr);
    lemma_join_concat(qa, qr, ","@);
    assert(x =~= a + comma + rest);
    assert(a + x.skip(i) =~= x);
    lemma_level_concat(a, x.skip(i), i as nat);
    assert(net(a) == 0);
    lemma_single(',');
    lemma_net_concat(a, comma);
    lemma_net_concat(a + comma, rest);
    assert forall|d: int| splits(x, d) == (splits(a, d) || d == 0 || splits(rest, d)) by {
        lemma_splits_concat(a, comma, d);
        lemma_splits_concat(a + comma, rest, d);
    }
    assert(abbreviations(q) =~= abbreviations(qa) + abbreviations(qr));
    if qa.len() == 0 {
        assert(q =~= qr);
    } else if qr.len() == 0 {
        assert(q =~= qa);
        assert(net(jr) == 0);
    } else {
        assert(j == ja + comma + jr);
        lemma_net_concat(ja, comma);
        lemma_net_concat(ja + comma, jr);
        assert forall|d: int| splits(j, d) implies splits(x, d) by {
            lemma_splits_concat(ja, comma, d);
            lemma_splits_concat(ja + comma, jr, d);
        }
        let k = ja.len() as int;
        assert(j =~= ja + (comma + jr));
        lemma_level_concat(ja, comma + jr, k as nat);
        assert(j[k] == ',');
        assert(split_at(j, 0, k));
        lemma_parts_unfold(j, k);
        assert(j.take(k) =~= ja);
        assert(j.skip(k + 1) =~= jr);
    }
}

/// The abbreviation of a type is settled.
pub proof fn lemma_abbreviated_settled(s: Seq<char>)
    ensures
        settled(s, abbreviated_type(s)),
    decreases s.len(), 0nat,
{
    let t = trim(s);
    lemma_trim_len(s);
    lemma_first_index(t, '<');
    if t.len() >= 2 && "[]"@.is_suffix_of(t) {
        lemma_abbreviated_settled(t.take(t.len() - 2));
        lemma_array_settled(s);
    } else if t.len() >= 1 && "?"@.is_suffix_of(t) {
        lemma_abbreviated_settled(t.take(t.len() - 1));
        lemma_optional_settled(s);
    } else if is_generic(t) {
        lemma_parameters_settled(t.subrange(first_index(t, '<') + 1, t.len() - 1));
        lemma_generic_settled(s);
    } else {
        lemma_name_settled(s);
    }
}

/// The abbreviated parameters of a parameter text are settled.
pub proof fn lemma_parameters_settled(x: Seq<char>)
    ensures
        parameters_settled(x),
    decreases x.len(), 1nat,
{
    if splits(x, 0) {
        let i = choose|i: int| split_at(x, 0, i);
        lemma_parameters_settled(x.take(i));
        lemma_parameters_settled(x.skip(i + 1));
        lemma_parameters_split(x, i);
    } else {
        lemma_trim_len(x);
        if trim(x).len() > 0 {
            lemma_abbreviated_settled(trim(x));
        }
        lemma_parameters_single(x);
    }
}

/// Abbreviating an abbreviation changes nothing: for every text `t`,
/// `abbreviation(abbreviation(t)) == abbreviation(t)`.
pub proof fn lemma_abbreviation_idempotent(t: Seq<char>)
    ensures
        abbreviation(abbreviation(t)) == abbreviation(t),
{
    lemma_abbreviated_settled(t);
}

} // verus!
