//! Character-level building blocks shared by the featurizer, the router and
//! the sentence splitter: the Unicode `White_Space` set, ASCII classes, and
//! the few std Unicode tables that take pages to state (lowercase mapping,
//! `Alphabetic`, `Numeric`), named as uninterpreted functions.
use vstd::prelude::*;

verus! {

/// Unicode `White_Space` property: the fixed set of code points that
/// `char::is_whitespace` (and so `str::split_whitespace` / `str::trim`)
/// treats as white space.
pub open spec fn is_white_space(c: char) -> bool {
    let u = c as u32;
    (0x9 <= u && u <= 0xD) || u == 0x20 || u == 0x85 || u == 0xA0 || u == 0x1680 || (0x2000 <= u
        && u <= 0x200A) || u == 0x2028 || u == 0x2029 || u == 0x202F || u == 0x205F || u == 0x3000
}

/// Executable `White_Space` test.
pub fn is_whitespace(c: char) -> (r: bool)
    ensures
        r == is_white_space(c),
{
    let u = c as u32;
    (0x9 <= u && u <= 0xD) || u == 0x20 || u == 0x85 || u == 0xA0 || u == 0x1680 || (0x2000 <= u
        && u <= 0x200A) || u == 0x2028 || u == 0x2029 || u == 0x202F || u == 0x205F || u == 0x3000
}

pub open spec fn is_ascii_char(c: char) -> bool {
    (c as u32) < 0x80
}

pub open spec fn is_ascii_digit(c: char) -> bool {
    '0' <= c && c <= '9'
}

pub open spec fn is_ascii_upper(c: char) -> bool {
    'A' <= c && c <= 'Z'
}

pub open spec fn is_ascii_lower(c: char) -> bool {
    'a' <= c && c <= 'z'
}

pub open spec fn is_ascii_alpha(c: char) -> bool {
    is_ascii_upper(c) || is_ascii_lower(c)
}

pub open spec fn is_ascii_alnum(c: char) -> bool {
    is_ascii_alpha(c) || is_ascii_digit(c)
}

/// ASCII case folding of one char: `A..=Z` map to `a..=z`, everything else
/// is kept.
pub open spec fn ascii_fold(c: char) -> char {
    if is_ascii_upper(c) {
        ((c as u32) + 0x20) as char
    } else {
        c
    }
}

/// Every char of `s` is ASCII.
pub open spec fn all_ascii(s: Seq<char>) -> bool {
    forall|i: int| 0 <= i < s.len() ==> is_ascii_char(#[trigger] s[i])
}

/// `a` and `b` are equal up to ASCII case (`str::eq_ignore_ascii_case`).
pub open spec fn eq_ignore_ascii_case(a: Seq<char>, b: Seq<char>) -> bool {
    a.len() == b.len() && forall|i: int| 0 <= i < a.len() ==> ascii_fold(#[trigger] a[i])
        == ascii_fold(b[i])
}

/// The full Unicode lowercase mapping of one char, as `char::to_lowercase`
/// yields it (one to three chars).
pub uninterp spec fn unicode_lowercase(c: char) -> Seq<char>;

/// The Unicode `Alphabetic` property, as `char::is_alphabetic` reads it.
pub uninterp spec fn unicode_alphabetic(c: char) -> bool;

/// The Unicode `Numeric` classes (`Nd`, `Nl`, `No`), as `char::is_numeric`
/// reads them.
pub uninterp spec fn unicode_numeric(c: char) -> bool;

/// `w` holds at least one alphabetic char.
pub open spec fn has_letter(w: Seq<char>) -> bool {
    exists|k: int| 0 <= k < w.len() && unicode_alphabetic(#[trigger] w[k])
}

/// `char::to_lowercase`: the chars of the full Unicode lowercase mapping of
/// `c`. The contract names the result and states the mapping on ASCII
/// letters and on the Cyrillic block `U+0400-U+045F` (`A-Z`, `А-Я` map
/// `+0x20`, `Ѐ-Џ` map `+0x50`, lowercase letters to themselves); the rest
/// of the mapping tables are std's and left unsaid.
#[verifier::external_body]
pub fn lowercase_chars(c: char) -> (r: Vec<char>)
    ensures
        r@ == unicode_lowercase(c),
        (0x41 <= c as u32 <= 0x5A || 0x410 <= c as u32 <= 0x42F) ==> r@ == seq![
            ((c as u32) + 0x20) as char,
        ],
        0x400 <= c as u32 <= 0x40F ==> r@ == seq![((c as u32) + 0x50) as char],
        (0x61 <= c as u32 <= 0x7A || 0x430 <= c as u32 <= 0x45F) ==> r@ == seq![c],
{
    c.to_lowercase().collect()
}

/// `char::is_alphabetic`; the contract names the result and states it on
/// ASCII (exactly the letters `A-Z`, `a-z`), on the Cyrillic block
/// `U+0400-U+045F` (all letters) and on whitespace (never alphabetic); the
/// other property tables are std's.
#[verifier::external_body]
pub fn is_alphabetic(c: char) -> (r: bool)
    ensures
        r == unicode_alphabetic(c),
        is_ascii_char(c) ==> (r <==> is_ascii_alpha(c)),
        0x400 <= c as u32 <= 0x45F ==> r,
        is_white_space(c) ==> !r,
{
    c.is_alphabetic()
}

/// `char::is_numeric`; the contract names the result and states it on
/// ASCII (exactly the digits `0-9`), on the Cyrillic block `U+0400-U+045F`
/// (no numerals) and on whitespace (never numeric); the other property
/// tables are std's.
#[verifier::external_body]
pub fn is_numeric(c: char) -> (r: bool)
    ensures
        r == unicode_numeric(c),
        is_ascii_char(c) ==> (r <==> is_ascii_digit(c)),
        0x400 <= c as u32 <= 0x45F ==> !r,
        is_white_space(c) ==> !r,
{
    c.is_numeric()
}

/// `char::from_u32`: the char with scalar value `u`, or `None` for a
/// surrogate or a value past `0x10FFFF`, as std documents it.
#[verifier::external_body]
pub fn char_from_u32(u: u32) -> (r: Option<char>)
    ensures
        (u < 0xD800 || (0xDFFF < u && u <= 0x10FFFF)) ==> r == Some(u as char),
        !(u < 0xD800 || (0xDFFF < u && u <= 0x10FFFF)) ==> r is None,
{
    char::from_u32(u)
}

/// `String::push`: appends one char.
#[verifier::external_body]
pub fn string_push(s: &mut String, c: char)
    ensures
        final(s)@ == old(s)@.push(c),
{
    s.push(c)
}

/// The chars of `s`, in order.
pub fn str_chars(s: &str) -> (r: Vec<char>)
    ensures
        r@ == s@,
{
    broadcast use vstd::string::group_string_axioms;

    let mut out: Vec<char> = Vec::new();
    for c in it: s.chars()
        invariant
            it.seq() == s@,
            out@ == it.seq().take(it.index() as int),
    {
        out.push(c);
    }
    out
}

/// A `String` holding exactly `cs`.
pub fn string_from_chars(cs: &[char]) -> (r: String)
    ensures
        r@ == cs@,
{
    let mut out = String::new();
    let mut i: usize = 0;
    while i < cs.len()
        invariant
            i <= cs@.len(),
            out@ == cs@.take(i as int),
        decreases cs@.len() - i,
    {
        string_push(&mut out, cs[i]);
        i = i + 1;
        assert(out@ == cs@.take(i as int));
    }
    out
}

/// ASCII case folding of one char.
pub fn fold_ascii(c: char) -> (r: char)
    ensures
        r == ascii_fold(c),
{
    if 'A' <= c && c <= 'Z' {
        let u = (c as u32) + 0x20;
        match char_from_u32(u) {
            Some(l) => l,
            None => c,
        }
    } else {
        c
    }
}

/// `a` and `b` compare equal up to ASCII case.
pub fn chars_eq_ignore_ascii_case(a: &[char], b: &[char]) -> (r: bool)
    ensures
        r == eq_ignore_ascii_case(a@, b@),
{
    if a.len() != b.len() {
        return false;
    }
    let mut i: usize = 0;
    while i < a.len()
        invariant
            a@.len() == b@.len(),
            i <= a@.len(),
            forall|j: int| 0 <= j < i ==> ascii_fold(#[trigger] a@[j]) == ascii_fold(b@[j]),
        decreases a@.len() - i,
    {
        if fold_ascii(a[i]) != fold_ascii(b[i]) {
            return false;
        }
        i = i + 1;
    }
    true
}

/// `a` and `b` hold the same chars.
pub fn chars_eq(a: &[char], b: &[char]) -> (r: bool)
    ensures
        r == (a@ == b@),
{
    if a.len() != b.len() {
        return false;
    }
    let mut i: usize = 0;
    while i < a.len()
        invariant
            a@.len() == b@.len(),
            i <= a@.len(),
            forall|j: int| 0 <= j < i ==> a@[j] == b@[j],
        decreases a@.len() - i,
    {
        if a[i] != b[i] {
            return false;
        }
        i = i + 1;
    }
    assert(a@ =~= b@);
    true
}

} // verus!
