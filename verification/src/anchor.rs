//! Fingerprints and anchors. A symbol's raw identifier has a 64-bit
//! fingerprint; its anchor is a sanitized short name, an underscore and the
//! first four hexadecimal digits of the fingerprint. The registry maps
//! fingerprints to anchors for one conversion.

use std::collections::HashMap;
use vstd::prelude::*;
use crate::symbol::{display_name, extract_name_from_uri};
use crate::text::{append_chars, chars_of, ends_with_lit, hex, hex_chars, slice_of, string_of};

verus! {

broadcast use vstd::std_specs::hash::group_hash_axioms;

/// The XXH64 digest of `input` under `seed`.
pub uninterp spec fn xxh64_digest(input: Seq<u8>, seed: u64) -> u64;

/// `xxhash_rust::xxh64::xxh64`: the digest is a function of the bytes and the
/// seed alone.
#[verifier::external_body]
fn xxh64_of(input: &[u8], seed: u64) -> (r: u64)
    ensures
        r == xxh64_digest(input@, seed),
{
    xxhash_rust::xxh64::xxh64(input, seed)
}

/// Whether `c` is alphabetic or numeric in Unicode's sense.
pub uninterp spec fn alphanumeric(c: char) -> bool;

/// `char::is_alphanumeric`: the answer is a function of the character alone.
#[verifier::external_body]
fn is_alphanumeric_char(c: char) -> (r: bool)
    ensures
        r == alphanumeric(c),
{
    c.is_alphanumeric()
}

/// The fingerprint of a raw identifier: the XXH64 digest, under seed zero,
/// of its UTF-8 bytes.
pub open spec fn fingerprint_of(s: Seq<char>) -> u64 {
    xxh64_digest(vstd::utf8::encode_utf8(s), 0)
}

/// The fingerprint of a raw identifier.
pub fn fingerprint(s: &str) -> (r: u64)
    ensures
        r == fingerprint_of(s@),
{
    xxh64_of(s.as_bytes(), 0)
}

/// `name`, an underscore, and the first four digits of `id` in base sixteen
/// (all of them where there are fewer).
pub open spec fn anchor_text(name: Seq<char>, id: u64) -> Seq<char> {
    let h = hex(id as nat);
    name + seq!['_'] + h.take(
        if h.len() < 4 {
            h.len() as int
        } else {
            4
        },
    )
}

/// The anchor made of a name and a fingerprint.
pub fn generate_anchor(name: &str, id: u64) -> (r: String)
    ensures
        r@ == anchor_text(name@, id),
{
    let h = hex_chars(id);
    let n: usize = if h.len() < 4 {
        h.len()
    } else {
        4
    };
    let short = slice_of(&h, 0, n);
    let mut out = chars_of(name);
    out.push('_');
    append_chars(&mut out, &short);
    string_of(&out)
}

/// `s` with every character that is not alphanumeric replaced by `_`.
pub open spec fn sanitized(s: Seq<char>) -> Seq<char> {
    s.map_values(
        |c: char|
            if alphanumeric(c) {
                c
            } else {
                '_'
            },
    )
}

/// The name part of a definition's anchor: a placeholder where the display
/// name is empty or is a bare file name, else the sanitized display name.
pub open spec fn anchor_base(name: Seq<char>) -> Seq<char> {
    if name.len() == 0 || ".ts"@.is_suffix_of(name) || ".rs"@.is_suffix_of(name) {
        "def"@
    } else {
        sanitized(name)
    }
}

/// The name part of the anchor of a definition with this display name.
pub fn anchor_base_of(name: &str) -> (r: String)
    ensures
        r@ == anchor_base(name@),
{
    let v = chars_of(name);
    if v.len() == 0 || ends_with_lit(&v, ".ts") || ends_with_lit(&v, ".rs") {
        "def".to_string()
    } else {
        let mut out: Vec<char> = Vec::new();
        let mut i: usize = 0;
        while i < v.len()
            invariant
                i <= v.len(),
                out@ == sanitized(v@.take(i as int)),
            decreases v.len() - i,
        {
            if is_alphanumeric_char(v[i]) {
                out.push(v[i]);
            } else {
                out.push('_');
            }
            assert(out@ =~= sanitized(v@.take(i + 1)));
            i += 1;
        }
        assert(v@.take(v.len() as int) == v@);
        string_of(&out)
    }
}

/// The anchor of the file whose relative path is `path`.
pub open spec fn file_anchor(path: Seq<char>) -> Seq<char> {
    anchor_text("file"@, fingerprint_of(path))
}

/// The anchor of the definition whose raw identifier is `raw`.
pub open spec fn symbol_anchor(raw: Seq<char>) -> Seq<char> {
    anchor_text(anchor_base(display_name(raw)), fingerprint_of(raw))
}

/// The anchor that stands for a fingerprint which the registry does not
/// hold.
pub open spec fn resolved(reg: Map<u64, Seq<char>>, id: u64, placeholder: Seq<char>) -> Seq<
    char,
> {
    if reg.contains_key(id) {
        reg[id]
    } else {
        anchor_text(placeholder, id)
    }
}

/// Fingerprints and their anchors.
pub struct AnchorRegistry {
    map: HashMap<u64, String>,
}

impl View for AnchorRegistry {
    type V = Map<u64, Seq<char>>;

    closed spec fn view(&self) -> Map<u64, Seq<char>> {
        Map::new(|k: u64| self.map@.contains_key(k), |k: u64| self.map@[k]@)
    }
}

impl AnchorRegistry {
    pub fn new() -> (r: Self)
        ensures
            r@ == Map::<u64, Seq<char>>::empty(),
    {
        let r = AnchorRegistry { map: HashMap::new() };
        assert(r@ =~= Map::<u64, Seq<char>>::empty());
        r
    }

    /// Records the anchor of a file under the fingerprint of its path,
    /// which is returned.
    pub fn register_file(&mut self, relative_path: &str) -> (id: u64)
        ensures
            id == fingerprint_of(relative_path@),
            final(self)@ == old(self)@.insert(id, file_anchor(relative_path@)),
    {
        let id = fingerprint(relative_path);
        let anchor = generate_anchor("file", id);
        self.map.insert(id, anchor);
        assert(self@ =~= old(self)@.insert(id, file_anchor(relative_path@)));
        id
    }

    /// Records the anchor of a definition under the fingerprint of its raw
    /// identifier, which is returned.
    pub fn register(&mut self, raw_symbol_id: &str) -> (id: u64)
        ensures
            id == fingerprint_of(raw_symbol_id@),
            final(self)@ == old(self)@.insert(id, symbol_anchor(raw_symbol_id@)),
    {
        let id = fingerprint(raw_symbol_id);
        let name = extract_name_from_uri(raw_symbol_id);
        let base = anchor_base_of(name.as_str());
        let anchor = generate_anchor(base.as_str(), id);
        self.map.insert(id, anchor);
        assert(self@ =~= old(self)@.insert(id, symbol_anchor(raw_symbol_id@)));
        id
    }

    /// Whether an anchor is recorded under `id`.
    pub fn contains(&self, id: u64) -> (r: bool)
        ensures
            r == self@.contains_key(id),
    {
        self.map.contains_key(&id)
    }

    /// The anchor recorded under `id`.
    pub fn lookup(&self, id: u64) -> (r: Option<String>)
        ensures
            match r {
                Some(a) => self@.contains_key(id) && a@ == self@[id],
                None => !self@.contains_key(id),
            },
    {
        match self.map.get(&id) {
            Some(a) => Some(a.clone()),
            None => None,
        }
    }

    /// The anchor recorded under `id`, or the anchor made of `placeholder`
    /// and `id` where none is.
    pub fn resolve(&self, id: u64, placeholder: &str) -> (r: String)
        ensures
            r@ == resolved(self@, id, placeholder@),
    {
        match self.lookup(id) {
            Some(a) => a,
            None => generate_anchor(placeholder, id),
        }
    }
}

/// Recording the same raw identifier a second time changes nothing.
pub proof fn lemma_register_idempotent(reg: Map<u64, Seq<char>>, raw: Seq<char>)
    ensures
        reg.insert(fingerprint_of(raw), symbol_anchor(raw)).insert(
            fingerprint_of(raw),
            symbol_anchor(raw),
        ) == reg.insert(fingerprint_of(raw), symbol_anchor(raw)),
{
    assert(reg.insert(fingerprint_of(raw), symbol_anchor(raw)).insert(
        fingerprint_of(raw),
        symbol_anchor(raw),
    ) =~= reg.insert(fingerprint_of(raw), symbol_anchor(raw)));
}

} // verus!
