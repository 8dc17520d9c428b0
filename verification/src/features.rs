//! Character n-gram feature extraction.
//!
//! Text is split on whitespace and each word is **classified** before
//! packing: URLs, emails, @mentions and digit-bearing ASCII tokens are
//! canonicalized to fixed sentinel codepoints ([`SENTINEL_URL`] etc.), while
//! real words are lowercased and wrapped in boundary markers ([`BOW`],
//! [`EOW`]). Every n-gram with `n_min <= n <= n_max` over the wrapped
//! sequence is emitted as a packed `u64` key (21 bits per codepoint,
//! wrapping), XORed with a per-order tag [`N_TAG`].
use vstd::prelude::*;

use crate::hash::FeatureHasher;
use crate::text::{
    all_ascii, ascii_fold, char_from_u32, eq_ignore_ascii_case, fold_ascii, is_ascii_alnum, is_ascii_alpha,
    is_ascii_char, is_ascii_digit, is_white_space, is_whitespace, lowercase_chars, str_chars,
    unicode_lowercase,
};

verus! {

/// Word-begin boundary marker.
pub const BOW: char = '\u{2}';

/// Word-end boundary marker.
pub const EOW: char = '\u{3}';

/// `http(s)://…`, `www.…` and bare ASCII domains pack as this sentinel.
pub const SENTINEL_URL: char = '\u{E001}';

/// `user@domain.tld` packs as this sentinel.
pub const SENTINEL_EMAIL: char = '\u{E002}';

/// `@nickname` packs as this sentinel.
pub const SENTINEL_MENTION: char = '\u{E003}';

/// Digit-bearing ASCII tokens (`2020`, `3.5.2`, `COVID19`) pack as this
/// sentinel.
pub const SENTINEL_NUM: char = '\u{E004}';

/// Bits per codepoint in the packed key. Unicode codepoints fit in 21 bits.
pub const CP_BITS: u32 = 21;

/// Low `CP_BITS` bits.
pub const CP_MASK: u64 = 0x1F_FFFF;

/// Low 21 bits: a 1-gram window of the rolling register.
pub const M1: u64 = 0x1F_FFFF;

/// Low 42 bits: a 2-gram window of the rolling register.
pub const M2: u64 = 0x3FF_FFFF_FFFF;

/// Low 63 bits: a 3-gram window of the rolling register.
pub const M3: u64 = 0x7FFF_FFFF_FFFF_FFFF;

/// Per-n domain-separation salt, XORed into every key: `N_TAG[n] = n * ODD`
/// (wrapping) with `ODD = 0x9E37_79B9_7F4A_7C15`. Without it, u64 wrapping
/// makes every 5-gram key bit-identical to its suffix 4-gram key.
pub const N_TAG: [u64; 6] = [
    0x0,
    0x9e37_79b9_7f4a_7c15,
    0x3c6e_f372_fe94_f82a,
    0xdaa6_6d2c_7ddf_743f,
    0x78dd_e6e5_fd29_f054,
    0x1715_609f_7c74_6c69,
];

/// The order tags are the multiples of the golden-ratio odd constant.
pub proof fn lemma_n_tag_is_multiple()
    ensures
        forall|n: int|
            0 <= n < 6 ==> #[trigger] N_TAG@[n] == ((n * 0x9E37_79B9_7F4A_7C15) % 0x1_0000_0000_0000_0000),
{
}

/// N-gram window configuration. Serialized in model metadata.
#[derive(Copy, Clone, Debug, PartialEq, Eq, Hash, Structural)]
pub struct FeatureConfig {
    pub n_min: u8,
    pub n_max: u8,
}

impl Default for FeatureConfig {
    fn default() -> (r: Self)
        ensures
            r.n_min == 1 && r.n_max == 5,
    {
        FeatureConfig { n_min: 1, n_max: 5 }
    }
}

/// The packed key of a char sequence: `((c0 << 21 | c1) << 21 | …) | c_last`,
/// wrapping at 64 bits.
pub open spec fn spec_pack(s: Seq<char>) -> u64
    decreases s.len(),
{
    if s.len() == 0 {
        0
    } else {
        (spec_pack(s.drop_last()) << CP_BITS) | ((s.last() as u64) & CP_MASK)
    }
}

/// Pack a character slice into a `u64` key (wrapping shift-or chain).
pub fn pack_ngram(chars: &[char]) -> (r: u64)
    ensures
        r == spec_pack(chars@),
{
    let mut key: u64 = 0;
    let mut i: usize = 0;
    while i < chars.len()
        invariant
            i <= chars@.len(),
            key == spec_pack(chars@.take(i as int)),
        decreases chars@.len() - i,
    {
        assert(chars@.take(i + 1).drop_last() == chars@.take(i as int));
        key = (key << CP_BITS) | ((chars[i] as u64) & CP_MASK);
        i = i + 1;
    }
    assert(chars@.take(chars@.len() as int) == chars@);
    key
}

/// Lowercase fast path for ASCII and the main Cyrillic blocks: `A-Z` and
/// `А-Я` are `+0x20`, `U+0400-U+040F` is `+0x50`, lowercase letters of those
/// blocks map to themselves; `None` for everything else.
pub open spec fn spec_fast_lower(c: char) -> Option<char> {
    let u = c as u32;
    if (0x41 <= u && u <= 0x5A) || (0x410 <= u && u <= 0x42F) {
        Some((u + 0x20) as char)
    } else if 0x400 <= u && u <= 0x40F {
        Some((u + 0x50) as char)
    } else if (0x61 <= u && u <= 0x7A) || (0x430 <= u && u <= 0x44F) || (0x450 <= u && u
        <= 0x45F) {
        Some(c)
    } else {
        None
    }
}

/// Lowercase fast path for the scripts this detector routes (see
/// [`spec_fast_lower`]); `None` sends the caller to the full mapping.
fn fast_lower(c: char) -> (r: Option<char>)
    ensures
        r == spec_fast_lower(c),
{
    let u = c as u32;
    if (0x41 <= u && u <= 0x5A) || (0x410 <= u && u <= 0x42F) {
        char_from_u32(u + 0x20)
    } else if 0x400 <= u && u <= 0x40F {
        char_from_u32(u + 0x50)
    } else if (0x61 <= u && u <= 0x7A) || (0x430 <= u && u <= 0x44F) || (0x450 <= u && u
        <= 0x45F) {
        Some(c)
    } else {
        None
    }
}

/// The lowercase chars of one char: the fast path where it applies, the
/// full Unicode mapping otherwise.
pub open spec fn spec_lower_char(c: char) -> Seq<char> {
    match spec_fast_lower(c) {
        Some(l) => seq![l],
        None => unicode_lowercase(c),
    }
}

/// The lowercase form of a word, char by char.
pub open spec fn spec_lower_all(w: Seq<char>) -> Seq<char>
    decreases w.len(),
{
    if w.len() == 0 {
        Seq::empty()
    } else {
        spec_lower_all(w.drop_last()) + spec_lower_char(w.last())
    }
}

/// Structural class of a whitespace-delimited word (after a leading `#` has
/// been stripped).
#[derive(Copy, Clone, Debug, PartialEq, Eq, Structural)]
pub enum WordClass {
    /// Ordinary word: packed as-is.
    Word,
    /// `http(s)://…`, `www.…` or a bare ASCII domain.
    Url,
    /// `user@domain.tld`.
    Email,
    /// `@nickname`.
    Mention,
    /// Digit-bearing ASCII token.
    Num,
}

/// `w` starts with `prefix` up to ASCII case.
pub open spec fn starts_with_ignore_case(w: Seq<char>, prefix: Seq<char>) -> bool {
    w.len() >= prefix.len() && eq_ignore_ascii_case(w.take(prefix.len() as int), prefix)
}

/// `http://`
pub open spec fn http_prefix() -> Seq<char> {
    seq!['h', 't', 't', 'p', ':', '/', '/']
}

/// `https://`
pub open spec fn https_prefix() -> Seq<char> {
    seq!['h', 't', 't', 'p', 's', ':', '/', '/']
}

/// `www.`
pub open spec fn www_prefix() -> Seq<char> {
    seq!['w', 'w', 'w', '.']
}

/// A char allowed in a domain: ASCII letter, digit, `.` or `-`.
pub open spec fn is_domain_char(c: char) -> bool {
    is_ascii_alnum(c) || c == '.' || c == '-'
}

/// A char allowed in an email's local part: ASCII letter, digit, or one of
/// `. _ % + -`.
pub open spec fn is_local_char(c: char) -> bool {
    is_ascii_alnum(c) || c == '.' || c == '_' || c == '%' || c == '+' || c == '-'
}

/// The labels of `s` (split on `.`) are all non-empty.
pub open spec fn labels_nonempty(s: Seq<char>) -> bool {
    &&& s.len() > 0
    &&& s[0] != '.'
    &&& s.last() != '.'
    &&& forall|i: int| 0 <= i < s.len() - 1 && #[trigger] s[i] == '.' ==> s[i + 1] != '.'
}

/// The label after the last `.` is at least two ASCII letters.
pub open spec fn alphabetic_tld(s: Seq<char>) -> bool {
    exists|d: int|
        0 <= d < s.len() && #[trigger] s[d] == '.' && s.len() - d - 1 >= 2 && forall|j: int|
            d < j < s.len() ==> is_ascii_alpha(#[trigger] s[j])
}

/// `letters/digits/hyphens/dots`, non-empty labels, alphabetic TLD of length
/// at least 2 (`t.co` yes, `a.b` and `U.S.A.` no).
pub open spec fn is_ascii_domain(s: Seq<char>) -> bool {
    &&& all_ascii(s)
    &&& s.contains('.')
    &&& forall|i: int| 0 <= i < s.len() ==> is_domain_char(#[trigger] s[i])
    &&& labels_nonempty(s)
    &&& alphabetic_tld(s)
}

/// `local@domain` with exactly one `@`, a non-empty local part of allowed
/// chars, and an ASCII domain.
pub open spec fn is_email_shape(w: Seq<char>) -> bool {
    exists|k: int|
        0 < k < w.len() && #[trigger] w[k] == '@' && (forall|j: int|
            0 <= j < w.len() && j != k ==> #[trigger] w[j] != '@') && (forall|j: int|
            0 <= j < k ==> is_local_char(#[trigger] w[j])) && is_ascii_domain(w.skip(k + 1))
}

/// Some char of `w` is an ASCII digit.
pub open spec fn has_ascii_digit(w: Seq<char>) -> bool {
    exists|i: int| 0 <= i < w.len() && is_ascii_digit(#[trigger] w[i])
}

/// Word classification; evaluation order is part of the contract:
/// mention, URL prefix, email, digit-bearing ASCII, bare domain, word.
pub open spec fn spec_classify(w: Seq<char>) -> WordClass {
    if w.len() > 1 && w[0] == '@' {
        WordClass::Mention
    } else if starts_with_ignore_case(w, http_prefix()) || starts_with_ignore_case(w, https_prefix())
        || starts_with_ignore_case(w, www_prefix()) {
        WordClass::Url
    } else if is_email_shape(w) {
        WordClass::Email
    } else if all_ascii(w) && has_ascii_digit(w) {
        WordClass::Num
    } else if is_ascii_domain(w) {
        WordClass::Url
    } else {
        WordClass::Word
    }
}

fn chars_start_with_ignore_case(w: &[char], prefix: &[char]) -> (r: bool)
    ensures
        r == starts_with_ignore_case(w@, prefix@),
{
    if w.len() < prefix.len() {
        return false;
    }
    let mut i: usize = 0;
    while i < prefix.len()
        invariant
            w@.len() >= prefix@.len(),
            i <= prefix@.len(),
            forall|j: int|
                0 <= j < i ==> crate::text::ascii_fold(#[trigger] w@[j]) == crate::text::ascii_fold(
                    prefix@[j],
                ),
        decreases prefix@.len() - i,
    {
        if fold_ascii(w[i]) != fold_ascii(prefix[i]) {
            assert(w@.take(prefix@.len() as int)[i as int] == w@[i as int]);
            return false;
        }
        i = i + 1;
    }
    assert(eq_ignore_ascii_case(w@.take(prefix@.len() as int), prefix@));
    true
}

fn is_ascii_digit_char(c: char) -> (r: bool)
    ensures
        r == is_ascii_digit(c),
{
    '0' <= c && c <= '9'
}

fn is_ascii_alpha_char(c: char) -> (r: bool)
    ensures
        r == is_ascii_alpha(c),
{
    ('A' <= c && c <= 'Z') || ('a' <= c && c <= 'z')
}

fn is_domain_char_exec(c: char) -> (r: bool)
    ensures
        r == is_domain_char(c),
{
    ('A' <= c && c <= 'Z') || ('a' <= c && c <= 'z') || ('0' <= c && c <= '9') || c == '.' || c
        == '-'
}

fn is_local_char_exec(c: char) -> (r: bool)
    ensures
        r == is_local_char(c),
{
    ('A' <= c && c <= 'Z') || ('a' <= c && c <= 'z') || ('0' <= c && c <= '9') || c == '.' || c
        == '_' || c == '%' || c == '+' || c == '-'
}

fn chars_all_ascii(s: &[char]) -> (r: bool)
    ensures
        r == all_ascii(s@),
{
    let mut i: usize = 0;
    while i < s.len()
        invariant
            i <= s@.len(),
            forall|j: int| 0 <= j < i ==> is_ascii_char(#[trigger] s@[j]),
        decreases s@.len() - i,
    {
        if (s[i] as u32) >= 0x80 {
            return false;
        }
        i = i + 1;
    }
    true
}

fn chars_has_ascii_digit(s: &[char]) -> (r: bool)
    ensures
        r == has_ascii_digit(s@),
{
    let mut i: usize = 0;
    while i < s.len()
        invariant
            i <= s@.len(),
            forall|j: int| 0 <= j < i ==> !is_ascii_digit(#[trigger] s@[j]),
        decreases s@.len() - i,
    {
        if is_ascii_digit_char(s[i]) {
            return true;
        }
        i = i + 1;
    }
    false
}

fn chars_is_ascii_domain(s: &[char]) -> (r: bool)
    ensures
        r == is_ascii_domain(s@),
{
    let n = s.len();
    if n == 0 {
        return false;
    }
    // charset, dot presence and non-empty labels in one pass
    let mut has_dot = false;
    let mut i: usize = 0;
    while i < n
        invariant
            n == s@.len(),
            n > 0,
            i <= n,
            has_dot == (exists|j: int| 0 <= j < i && #[trigger] s@[j] == '.'),
            forall|j: int| 0 <= j < i ==> is_domain_char(#[trigger] s@[j]),
            forall|j: int| 0 <= j < i && #[trigger] s@[j] == '.' ==> 0 < j < n - 1 && s@[j + 1] != '.',
        decreases n - i,
    {
        let c = s[i];
        if !is_domain_char_exec(c) {
            return false;
        }
        if c == '.' {
            if i == 0 || i == n - 1 || s[i + 1] == '.' {
                proof {
                    if i == n - 1 {
                        assert(s@.last() == '.');
                    }
                }
                return false;
            }
            has_dot = true;
        }
        i = i + 1;
    }
    if !has_dot {
        proof {
            assert(!s@.contains('.'));
        }
        return false;
    }
    proof {
        let j = choose|j: int| 0 <= j < n && #[trigger] s@[j] == '.';
        assert(s@.contains('.'));
        assert(s@.last() != '.');
        assert forall|j: int| 0 <= j < n implies is_ascii_char(#[trigger] s@[j]) by {
            assert(is_domain_char(s@[j]));
        }
    }
    // the TLD: the run of ASCII letters at the end must stop at a dot,
    // at least two letters after it
    let mut k: usize = n;
    while k > 0 && is_ascii_alpha_char(s[k - 1])
        invariant
            k <= n,
            n == s@.len(),
            forall|j: int| k <= j < n ==> is_ascii_alpha(#[trigger] s@[j]),
        decreases k,
    {
        k = k - 1;
    }
    if k == 0 || s[k - 1] != '.' || n - k < 2 {
        proof {
            if alphabetic_tld(s@) {
                let d = choose|d: int|
                    0 <= d < s@.len() && #[trigger] s@[d] == '.' && s@.len() - d - 1 >= 2
                        && forall|j: int| d < j < s@.len() ==> is_ascii_alpha(#[trigger] s@[j]);
                if d < k - 1 {
                    assert(is_ascii_alpha(s@[k - 1]));
                } else if d > k - 1 {
                    assert(is_ascii_alpha(s@[d]));
                }
            }
        }
        return false;
    }
    proof {
        assert(s@[k - 1] == '.');
        assert(alphabetic_tld(s@));
    }
    true
}

fn chars_is_email_shape(w: &[char]) -> (r: bool)
    ensures
        r == is_email_shape(w@),
{
    let n = w.len();
    // first '@'
    let mut k: usize = 0;
    while k < n && w[k] != '@'
        invariant
            k <= n,
            n == w@.len(),
            forall|j: int| 0 <= j < k ==> w@[j] != '@',
        decreases n - k,
    {
        k = k + 1;
    }
    if k == n || k == 0 {
        proof {
            if is_email_shape(w@) {
                let k2 = choose|k2: int|
                    0 < k2 < w@.len() && #[trigger] w@[k2] == '@' && (forall|j: int|
                        0 <= j < w@.len() && j != k2 ==> #[trigger] w@[j] != '@') && (forall|j: int|
                        0 <= j < k2 ==> is_local_char(#[trigger] w@[j])) && is_ascii_domain(
                        w@.skip(k2 + 1),
                    );
                if k == 0 {
                    assert(w@[0] == '@');
                } else {
                    assert(w@[k2] != '@');
                }
            }
        }
        return false;
    }
    // no second '@'
    let mut j: usize = k + 1;
    while j < n
        invariant
            0 < k < j <= n,
            n == w@.len(),
            w@[k as int] == '@',
            forall|m: int| 0 <= m < j && m != k ==> w@[m] != '@',
        decreases n - j,
    {
        if w[j] == '@' {
            proof {
                if is_email_shape(w@) {
                    let k2 = choose|k2: int|
                        0 < k2 < w@.len() && #[trigger] w@[k2] == '@' && (forall|j: int|
                            0 <= j < w@.len() && j != k2 ==> #[trigger] w@[j] != '@') && (forall|
                            j: int|
                            0 <= j < k2 ==> is_local_char(#[trigger] w@[j])) && is_ascii_domain(
                            w@.skip(k2 + 1),
                        );
                    assert(w@[k as int] == '@');
                    assert(w@[j as int] == '@');
                }
            }
            return false;
        }
        j = j + 1;
    }
    // local part
    let mut i: usize = 0;
    while i < k
        invariant
            i <= k < n,
            n == w@.len(),
            w@[k as int] == '@',
            forall|m: int| 0 <= m < n && m != k ==> w@[m] != '@',
            forall|m: int| 0 <= m < i ==> is_local_char(#[trigger] w@[m]),
        decreases k - i,
    {
        if !is_local_char_exec(w[i]) {
            proof {
                if is_email_shape(w@) {
                    let k2 = choose|k2: int|
                        0 < k2 < w@.len() && #[trigger] w@[k2] == '@' && (forall|j: int|
                            0 <= j < w@.len() && j != k2 ==> #[trigger] w@[j] != '@') && (forall|
                            j: int|
                            0 <= j < k2 ==> is_local_char(#[trigger] w@[j])) && is_ascii_domain(
                            w@.skip(k2 + 1),
                        );
                    assert(k2 == k);
                    assert(is_local_char(w@[i as int]));
                }
            }
            return false;
        }
        i = i + 1;
    }
    let mut domain: Vec<char> = Vec::new();
    let mut m: usize = k + 1;
    while m < n
        invariant
            k < n,
            k + 1 <= m <= n,
            n == w@.len(),
            domain@ == w@.subrange(k + 1, m as int),
        decreases n - m,
    {
        domain.push(w[m]);
        m = m + 1;
    }
    assert(domain@ == w@.skip(k + 1));
    chars_is_ascii_domain(domain.as_slice())
}

/// Word classification over chars (see [`spec_classify`]).
fn classify_chars(w: &[char]) -> (r: WordClass)
    ensures
        r == spec_classify(w@),
{
    if w.len() > 1 && w[0] == '@' {
        return WordClass::Mention;
    }
    let http = vec!['h', 't', 't', 'p', ':', '/', '/'];
    let https = vec!['h', 't', 't', 'p', 's', ':', '/', '/'];
    let www = vec!['w', 'w', 'w', '.'];
    assert(http@ == http_prefix());
    assert(https@ == https_prefix());
    assert(www@ == www_prefix());
    if chars_start_with_ignore_case(w, http.as_slice()) || chars_start_with_ignore_case(
        w,
        https.as_slice(),
    ) || chars_start_with_ignore_case(w, www.as_slice()) {
        return WordClass::Url;
    }
    if chars_is_email_shape(w) {
        return WordClass::Email;
    }
    if chars_all_ascii(w) && chars_has_ascii_digit(w) {
        return WordClass::Num;
    }
    if chars_is_ascii_domain(w) {
        return WordClass::Url;
    }
    WordClass::Word
}

/// Classify one word. Evaluation order matters and is part of the contract:
/// mention → URL prefix → email → digit-bearing ASCII → bare domain → word.
pub fn classify_word(word: &str) -> (r: WordClass)
    ensures
        r == spec_classify(word@),
{
    let chars = str_chars(word);
    classify_chars(chars.as_slice())
}

/// One leading `#` stripped (hashtags keep their word).
pub open spec fn strip_hash(w: Seq<char>) -> Seq<char> {
    if w.len() > 0 && w[0] == '#' {
        w.drop_first()
    } else {
        w
    }
}

/// The sentinel a class canonicalizes to; `None` for real words.
pub open spec fn sentinel_of(class: WordClass) -> Option<char> {
    match class {
        WordClass::Word => None,
        WordClass::Url => Some(SENTINEL_URL),
        WordClass::Email => Some(SENTINEL_EMAIL),
        WordClass::Mention => Some(SENTINEL_MENTION),
        WordClass::Num => Some(SENTINEL_NUM),
    }
}

/// The unit sequence a (stripped, non-empty) word packs as: `BOW`, then its
/// sentinel or its lowercase chars, then `EOW`.
pub open spec fn spec_word_units(w: Seq<char>) -> Seq<char> {
    let body = match sentinel_of(spec_classify(w)) {
        Some(c) => seq![c],
        None => spec_lower_all(w),
    };
    seq![BOW] + body + seq![EOW]
}

/// The window of order `n` of the rolling register after feeding `u`:
/// masks for `n <= 3`, the full (wrapped) register otherwise.
pub open spec fn spec_window(u: Seq<char>, n: nat) -> u64 {
    let r = spec_pack(u);
    if n == 1 {
        r & M1
    } else if n == 2 {
        r & M2
    } else if n == 3 {
        r & M3
    } else {
        r
    }
}

/// The highest order emitted at a position `len` units into a word.
pub open spec fn top_order(len: nat, cfg: FeatureConfig) -> nat {
    if (cfg.n_max as nat) < len {
        cfg.n_max as nat
    } else {
        len
    }
}

/// No order above 5 is ever emitted at a position `len` units into a word
/// (the order tags exist for `n <= 5`).
pub open spec fn orders_fit_at(len: nat, cfg: FeatureConfig) -> bool {
    top_order(len, cfg) <= 5 || top_order(len, cfg) < cfg.n_min
}

/// The keys emitted when the last unit of `p` is fed: one per order
/// `n_min ..= min(n_max, p.len())`, ascending.
pub open spec fn spec_step_keys(p: Seq<char>, cfg: FeatureConfig) -> Seq<u64> {
    let top = top_order(p.len(), cfg);
    let count: nat = if top >= cfg.n_min {
        (top - cfg.n_min + 1) as nat
    } else {
        0
    };
    Seq::new(count, |k: int| spec_window(p, (cfg.n_min + k) as nat) ^ N_TAG@[cfg.n_min + k])
}

/// All keys of a unit sequence, position-major: for each position, the
/// n-grams ending there.
pub open spec fn spec_units_keys(u: Seq<char>, cfg: FeatureConfig) -> Seq<u64>
    decreases u.len(),
{
    if u.len() == 0 {
        Seq::empty()
    } else {
        spec_units_keys(u.drop_last(), cfg) + spec_step_keys(u, cfg)
    }
}

/// The keys of one whitespace-delimited word.
pub open spec fn spec_word_keys(w: Seq<char>, cfg: FeatureConfig) -> Seq<u64> {
    let s = strip_hash(w);
    if s.len() == 0 {
        Seq::empty()
    } else {
        spec_units_keys(spec_word_units(s), cfg)
    }
}

/// A word emits no order above 5.
pub open spec fn word_orders_fit(w: Seq<char>, cfg: FeatureConfig) -> bool {
    let s = strip_hash(w);
    s.len() == 0 || orders_fit_at(spec_word_units(s).len(), cfg)
}

/// Length of the run of non-whitespace chars that starts `s`.
pub open spec fn spec_word_len(s: Seq<char>) -> nat
    decreases s.len(),
{
    if s.len() == 0 || is_white_space(s[0]) {
        0
    } else {
        1 + spec_word_len(s.drop_first())
    }
}

pub proof fn lemma_word_len_bounds(s: Seq<char>)
    ensures
        spec_word_len(s) <= s.len(),
        s.len() > 0 && !is_white_space(s[0]) ==> spec_word_len(s) >= 1,
    decreases s.len(),
{
    if s.len() > 0 && !is_white_space(s[0]) {
        lemma_word_len_bounds(s.drop_first());
    }
}

/// The words of `s`, as `str::split_whitespace` yields them: the maximal
/// runs of non-`White_Space` chars, in order.
pub open spec fn spec_words(s: Seq<char>) -> Seq<Seq<char>>
    decreases s.len(),
{
    if s.len() == 0 {
        Seq::empty()
    } else if is_white_space(s[0]) {
        spec_words(s.drop_first())
    } else {
        let n = spec_word_len(s);
        proof {
            lemma_word_len_bounds(s);
        }
        seq![s.take(n as int)] + spec_words(s.skip(n as int))
    }
}

/// The keys of a sequence of words, word after word.
pub open spec fn spec_words_keys(ws: Seq<Seq<char>>, cfg: FeatureConfig) -> Seq<u64>
    decreases ws.len(),
{
    if ws.len() == 0 {
        Seq::empty()
    } else {
        spec_word_keys(ws[0], cfg) + spec_words_keys(ws.drop_first(), cfg)
    }
}

/// Packed n-gram keys of `text`, in encounter order: word after word, and
/// within a word position-major.
pub open spec fn spec_token_keys(text: Seq<char>, cfg: FeatureConfig) -> Seq<u64> {
    spec_words_keys(spec_words(text), cfg)
}

/// Every word of `text` emits no order above 5 (an order of 6 or more would
/// index past [`N_TAG`]).
pub open spec fn spec_orders_fit(text: Seq<char>, cfg: FeatureConfig) -> bool {
    forall|i: int| 0 <= i < spec_words(text).len() ==> word_orders_fit(#[trigger] spec_words(text)[i], cfg)
}

/// A consumer of packed keys (the streaming end of [`for_each_key`]).
pub trait KeySink {
    /// The keys received so far, in order.
    spec fn keys(&self) -> Seq<u64>;

    /// Receive one key.
    fn push_key(&mut self, key: u64)
        ensures
            final(self).keys() == old(self).keys().push(key),
    ;
}

impl KeySink for Vec<u64> {
    open spec fn keys(&self) -> Seq<u64> {
        self@
    }

    fn push_key(&mut self, key: u64) {
        self.push(key);
    }
}

/// Feed one unit into the rolling register and emit the keys of the windows
/// ending at it.
fn feed<S: KeySink>(
    r: &mut u64,
    len: &mut usize,
    c: char,
    cfg: &FeatureConfig,
    sink: &mut S,
    Ghost(units): Ghost<Seq<char>>,
)
    requires
        *old(r) == spec_pack(units),
        *old(len) == if units.len() < 256 { units.len() } else { 256 },
        orders_fit_at(units.len() + 1, *cfg),
    ensures
        *final(r) == spec_pack(units.push(c)),
        *final(len) == if units.len() + 1 < 256 { units.len() + 1 } else { 256 },
        final(sink).keys() == old(sink).keys() + spec_step_keys(units.push(c), *cfg),
{
    let p = Ghost(units.push(c));
    assert(p@.drop_last() == units);
    *r = (*r << CP_BITS) | ((c as u64) & CP_MASK);
    if *len < 256 {
        *len = *len + 1;
    }
    let reg = *r;
    let n_max = cfg.n_max as usize;
    let upper = if n_max < *len {
        n_max
    } else {
        *len
    };
    assert(upper == top_order(p@.len(), *cfg));
    let mut n = cfg.n_min as usize;
    while n <= upper
        invariant
            reg == spec_pack(p@),
            upper == top_order(p@.len(), *cfg),
            upper <= 255,
            orders_fit_at(p@.len(), *cfg),
            cfg.n_min <= n,
            n <= upper + 1 || n == cfg.n_min,
            sink.keys() == old(sink).keys() + spec_step_keys(p@, *cfg).take(n - cfg.n_min),
        decreases upper + 1 - n,
    {
        let window = if n == 1 {
            reg & M1
        } else if n == 2 {
            reg & M2
        } else if n == 3 {
            reg & M3
        } else {
            reg
        };
        assert(window == spec_window(p@, n as nat));
        let ghost before = sink.keys();
        sink.push_key(window ^ N_TAG[n]);
        assert(spec_step_keys(p@, *cfg).take(n + 1 - cfg.n_min) == spec_step_keys(p@, *cfg).take(
            n - cfg.n_min,
        ).push(window ^ N_TAG[n as int]));
        n = n + 1;
    }
    assert(spec_step_keys(p@, *cfg).take(n - cfg.n_min) == spec_step_keys(p@, *cfg));
}

/// The word run that starts `s` is all non-whitespace and ends at
/// whitespace or at the end of `s`.
proof fn lemma_word_len_shape(s: Seq<char>)
    ensures
        forall|i: int| 0 <= i < spec_word_len(s) ==> !is_white_space(#[trigger] s[i]),
        spec_word_len(s) < s.len() ==> is_white_space(s[spec_word_len(s) as int]),
        spec_word_len(s) <= s.len(),
    decreases s.len(),
{
    if s.len() > 0 && !is_white_space(s[0]) {
        let t = s.drop_first();
        lemma_word_len_shape(t);
        assert forall|i: int| 0 <= i < spec_word_len(s) implies !is_white_space(#[trigger] s[i]) by {
            if i > 0 {
                assert(s[i] == t[i - 1]);
            }
        }
        if spec_word_len(s) < s.len() {
            assert(s[spec_word_len(s) as int] == t[spec_word_len(t) as int]);
        }
    }
}

/// A whitespace char between two texts separates their words: the words
/// of `a`, `w`, `b` are the words of `a` followed by the words of `b`.
proof fn lemma_words_concat(a: Seq<char>, w: char, b: Seq<char>)
    requires
        is_white_space(w),
    ensures
        spec_words(a + seq![w] + b) == spec_words(a) + spec_words(b),
    decreases a.len(),
{
    let x = a + seq![w] + b;
    if a.len() == 0 {
        assert(x.drop_first() == b);
        assert(spec_words(a) + spec_words(b) == spec_words(b));
    } else if is_white_space(a[0]) {
        assert(x.drop_first() == a.drop_first() + seq![w] + b);
        lemma_words_concat(a.drop_first(), w, b);
    } else {
        lemma_word_len_shape(a);
        lemma_word_len_bounds(a);
        let m = spec_word_len(a) as int;
        assert forall|i: int| 0 <= i < m implies !is_white_space(#[trigger] x[i]) by {
            assert(x[i] == a[i]);
        }
        if m < a.len() {
            assert(x[m] == a[m]);
        } else {
            assert(x[m] == w);
        }
        lemma_word_len_exact(x, m);
        assert(x.take(m) == a.take(m));
        assert(x.skip(m) == a.skip(m) + seq![w] + b);
        lemma_words_concat(a.skip(m), w, b);
        assert(spec_words(a) == seq![a.take(m)] + spec_words(a.skip(m)));
        assert(spec_words(x) == seq![x.take(m)] + spec_words(x.skip(m)));
    }
}

/// Keys of a run of words are the keys of its parts, in order.
proof fn lemma_words_keys_concat(x: Seq<Seq<char>>, y: Seq<Seq<char>>, cfg: FeatureConfig)
    ensures
        spec_words_keys(x + y, cfg) == spec_words_keys(x, cfg) + spec_words_keys(y, cfg),
    decreases x.len(),
{
    if x.len() == 0 {
        assert(x + y == y);
    } else {
        assert((x + y).drop_first() == x.drop_first() + y);
        assert((x + y)[0] == x[0]);
        lemma_words_keys_concat(x.drop_first(), y, cfg);
    }
}

/// Words are isolated: the keys of `a`, one whitespace char, then `b` are
/// the keys of `a` followed by the keys of `b` (the rolling register starts
/// afresh at every word).
pub proof fn lemma_words_are_isolated(a: Seq<char>, w: char, b: Seq<char>, cfg: FeatureConfig)
    requires
        is_white_space(w),
    ensures
        spec_token_keys(a + seq![w] + b, cfg) == spec_token_keys(a, cfg) + spec_token_keys(b, cfg),
{
    lemma_words_concat(a, w, b);
    lemma_words_keys_concat(spec_words(a), spec_words(b), cfg);
}

/// Letters whose case the detector folds: ASCII letters and the Cyrillic
/// block `U+0400-U+045F`.
pub open spec fn is_foldable_letter(c: char) -> bool {
    is_ascii_alpha(c) || (0x400 <= c as u32 && c as u32 <= 0x45F)
}

/// `c` and `d` are the same char, or the same foldable letter in either
/// case (`A`/`a`, `Б`/`б`, `Ё`/`ё`).
pub open spec fn same_up_to_case(c: char, d: char) -> bool {
    c == d || (is_foldable_letter(c) && is_foldable_letter(d) && spec_fast_lower(c)
        == spec_fast_lower(d))
}

/// `a` and `b` differ at most in the case of foldable letters.
pub open spec fn case_variants(a: Seq<char>, b: Seq<char>) -> bool {
    &&& a.len() == b.len()
    &&& forall|i: int|
        #![trigger a[i]]
        #![trigger b[i]]
        0 <= i < a.len() ==> same_up_to_case(a[i], b[i])
}

/// Every char test the classifier and the packer make agrees on two chars
/// that differ only in case.
proof fn lemma_same_up_to_case_char(c: char, d: char)
    requires
        same_up_to_case(c, d),
    ensures
        same_up_to_case(d, c),
        is_white_space(c) == is_white_space(d),
        is_ascii_char(c) == is_ascii_char(d),
        is_ascii_digit(c) == is_ascii_digit(d),
        is_ascii_alpha(c) == is_ascii_alpha(d),
        is_domain_char(c) == is_domain_char(d),
        is_local_char(c) == is_local_char(d),
        (c == '#') == (d == '#'),
        (c == '@') == (d == '@'),
        (c == '.') == (d == '.'),
        ascii_fold(c) == ascii_fold(d) || (!is_ascii_char(ascii_fold(c)) && !is_ascii_char(
            ascii_fold(d),
        )),
        spec_lower_char(c) == spec_lower_char(d),
{
    if c != d {
        let u = c as u32;
        let v = d as u32;
        let fc = spec_fast_lower(c);
        let fd = spec_fast_lower(d);
        assert(fc is Some);
        let l = fc->0;
        if is_ascii_alpha(c) {
            assert(l as u32 <= 0x7A);
            if !is_ascii_alpha(d) {
                assert(0x430 <= (fd->0) as u32);
            }
            assert(is_ascii_alpha(d));
            assert(ascii_fold(c) == l);
            assert(ascii_fold(d) == l);
        } else {
            assert(0x430 <= l as u32);
            if is_ascii_alpha(d) {
                assert((fd->0) as u32 <= 0x7A);
            }
        }
    }
}

/// Case variants read backwards are case variants.
proof fn lemma_case_variants_symmetric(a: Seq<char>, b: Seq<char>)
    requires
        case_variants(a, b),
    ensures
        case_variants(b, a),
{
    assert forall|i: int| 0 <= i < b.len() implies same_up_to_case(b[i], a[i]) by {
        lemma_same_up_to_case_char(a[i], b[i]);
    }
}

/// Pieces at the same place of two case variants are case variants.
proof fn lemma_case_variants_subrange(a: Seq<char>, b: Seq<char>, i: int, j: int)
    requires
        case_variants(a, b),
        0 <= i <= j <= a.len(),
    ensures
        case_variants(a.subrange(i, j), b.subrange(i, j)),
{
    assert forall|k: int| 0 <= k < j - i implies same_up_to_case(
        a.subrange(i, j)[k],
        b.subrange(i, j)[k],
    ) by {
        assert(a.subrange(i, j)[k] == a[i + k]);
        assert(b.subrange(i, j)[k] == b[i + k]);
    }
}

proof fn lemma_starts_with_case_blind(w: Seq<char>, w2: Seq<char>, p: Seq<char>)
    requires
        case_variants(w, w2),
        all_ascii(p),
        starts_with_ignore_case(w, p),
    ensures
        starts_with_ignore_case(w2, p),
{
    let n = p.len() as int;
    assert forall|i: int| 0 <= i < n implies ascii_fold(#[trigger] w2.take(n)[i]) == ascii_fold(
        p[i],
    ) by {
        assert(w.take(n)[i] == w[i]);
        assert(w2.take(n)[i] == w2[i]);
        assert(ascii_fold(w[i]) == ascii_fold(p[i]));
        lemma_same_up_to_case_char(w[i], w2[i]);
        assert(is_ascii_char(p[i]));
    }
}

proof fn lemma_domain_case_blind(s: Seq<char>, s2: Seq<char>)
    requires
        case_variants(s, s2),
        is_ascii_domain(s),
    ensures
        is_ascii_domain(s2),
{
    assert forall|i: int| 0 <= i < s2.len() implies is_ascii_char(#[trigger] s2[i]) && is_domain_char(
        s2[i],
    ) by {
        lemma_same_up_to_case_char(s[i], s2[i]);
        assert(is_domain_char(s[i]));
        assert(is_ascii_char(s[i]));
    }
    let k = choose|k: int| 0 <= k < s.len() && s[k] == '.';
    lemma_same_up_to_case_char(s[k], s2[k]);
    assert(s2[k] == '.');
    lemma_same_up_to_case_char(s[0], s2[0]);
    lemma_same_up_to_case_char(s.last(), s2.last());
    assert forall|i: int| 0 <= i < s2.len() - 1 && #[trigger] s2[i] == '.' implies s2[i + 1] != '.' by {
        lemma_same_up_to_case_char(s[i], s2[i]);
        lemma_same_up_to_case_char(s[i + 1], s2[i + 1]);
        assert(s[i] == '.');
    }
    let d = choose|d: int|
        0 <= d < s.len() && #[trigger] s[d] == '.' && s.len() - d - 1 >= 2 && forall|j: int|
            d < j < s.len() ==> is_ascii_alpha(#[trigger] s[j]);
    lemma_same_up_to_case_char(s[d], s2[d]);
    assert forall|j: int| d < j < s2.len() implies is_ascii_alpha(#[trigger] s2[j]) by {
        lemma_same_up_to_case_char(s[j], s2[j]);
        assert(is_ascii_alpha(s[j]));
    }
    assert(alphabetic_tld(s2));
}

proof fn lemma_email_case_blind(w: Seq<char>, w2: Seq<char>)
    requires
        case_variants(w, w2),
        is_email_shape(w),
    ensures
        is_email_shape(w2),
{
    let k = choose|k: int|
        0 < k < w.len() && #[trigger] w[k] == '@' && (forall|j: int|
            0 <= j < w.len() && j != k ==> #[trigger] w[j] != '@') && (forall|j: int|
            0 <= j < k ==> is_local_char(#[trigger] w[j])) && is_ascii_domain(w.skip(k + 1));
    lemma_same_up_to_case_char(w[k], w2[k]);
    assert forall|j: int| 0 <= j < w2.len() && j != k implies #[trigger] w2[j] != '@' by {
        lemma_same_up_to_case_char(w[j], w2[j]);
        assert(w[j] != '@');
    }
    assert forall|j: int| 0 <= j < k implies is_local_char(#[trigger] w2[j]) by {
        lemma_same_up_to_case_char(w[j], w2[j]);
        assert(is_local_char(w[j]));
    }
    lemma_case_variants_subrange(w, w2, k + 1, w.len() as int);
    assert(w.skip(k + 1) == w.subrange(k + 1, w.len() as int));
    assert(w2.skip(k + 1) == w2.subrange(k + 1, w2.len() as int));
    lemma_domain_case_blind(w.skip(k + 1), w2.skip(k + 1));
    assert(w2[k] == '@');
}

/// One direction of [`lemma_classify_case_blind`]: each class test that
/// holds of `w` holds of `w2`.
proof fn lemma_classify_tests_case_blind(w: Seq<char>, w2: Seq<char>)
    requires
        case_variants(w, w2),
    ensures
        (w.len() > 1 && w[0] == '@') ==> (w2.len() > 1 && w2[0] == '@'),
        starts_with_ignore_case(w, http_prefix()) ==> starts_with_ignore_case(w2, http_prefix()),
        starts_with_ignore_case(w, https_prefix()) ==> starts_with_ignore_case(w2, https_prefix()),
        starts_with_ignore_case(w, www_prefix()) ==> starts_with_ignore_case(w2, www_prefix()),
        is_email_shape(w) ==> is_email_shape(w2),
        all_ascii(w) ==> all_ascii(w2),
        has_ascii_digit(w) ==> has_ascii_digit(w2),
        is_ascii_domain(w) ==> is_ascii_domain(w2),
{
    if w.len() > 0 {
        lemma_same_up_to_case_char(w[0], w2[0]);
    }
    assert(all_ascii(http_prefix()));
    assert(all_ascii(https_prefix()));
    assert(all_ascii(www_prefix()));
    if starts_with_ignore_case(w, http_prefix()) {
        lemma_starts_with_case_blind(w, w2, http_prefix());
    }
    if starts_with_ignore_case(w, https_prefix()) {
        lemma_starts_with_case_blind(w, w2, https_prefix());
    }
    if starts_with_ignore_case(w, www_prefix()) {
        lemma_starts_with_case_blind(w, w2, www_prefix());
    }
    if is_email_shape(w) {
        lemma_email_case_blind(w, w2);
    }
    if all_ascii(w) {
        assert forall|i: int| 0 <= i < w2.len() implies is_ascii_char(#[trigger] w2[i]) by {
            lemma_same_up_to_case_char(w[i], w2[i]);
        }
    }
    if has_ascii_digit(w) {
        let i = choose|i: int| 0 <= i < w.len() && is_ascii_digit(#[trigger] w[i]);
        lemma_same_up_to_case_char(w[i], w2[i]);
        assert(is_ascii_digit(w2[i]));
    }
    if is_ascii_domain(w) {
        lemma_domain_case_blind(w, w2);
    }
}

/// The classifier is blind to the case of foldable letters.
proof fn lemma_classify_case_blind(w: Seq<char>, w2: Seq<char>)
    requires
        case_variants(w, w2),
    ensures
        spec_classify(w) == spec_classify(w2),
{
    lemma_case_variants_symmetric(w, w2);
    lemma_classify_tests_case_blind(w, w2);
    lemma_classify_tests_case_blind(w2, w);
}

/// Lowercasing maps case variants to the same chars.
proof fn lemma_lower_all_case_blind(w: Seq<char>, w2: Seq<char>)
    requires
        case_variants(w, w2),
    ensures
        spec_lower_all(w) == spec_lower_all(w2),
    decreases w.len(),
{
    if w.len() > 0 {
        lemma_case_variants_subrange(w, w2, 0, w.len() - 1);
        assert(w.drop_last() == w.subrange(0, w.len() - 1));
        assert(w2.drop_last() == w2.subrange(0, w2.len() - 1));
        lemma_lower_all_case_blind(w.drop_last(), w2.drop_last());
        lemma_same_up_to_case_char(w.last(), w2.last());
    }
}

/// One word and a case variant of it produce the same keys.
proof fn lemma_word_keys_case_blind(w: Seq<char>, w2: Seq<char>, cfg: FeatureConfig)
    requires
        case_variants(w, w2),
    ensures
        spec_word_keys(w, cfg) == spec_word_keys(w2, cfg),
{
    if w.len() > 0 {
        lemma_same_up_to_case_char(w[0], w2[0]);
    }
    let s = strip_hash(w);
    let s2 = strip_hash(w2);
    if w.len() > 0 && w[0] == '#' {
        lemma_case_variants_subrange(w, w2, 1, w.len() as int);
        assert(s == w.subrange(1, w.len() as int));
        assert(s2 == w2.subrange(1, w2.len() as int));
    }
    assert(case_variants(s, s2));
    lemma_classify_case_blind(s, s2);
    lemma_lower_all_case_blind(s, s2);
    assert(spec_word_units(s) == spec_word_units(s2));
}

/// Case variants have their first word of the same length.
proof fn lemma_word_len_case_blind(t: Seq<char>, t2: Seq<char>)
    requires
        case_variants(t, t2),
    ensures
        spec_word_len(t) == spec_word_len(t2),
    decreases t.len(),
{
    if t.len() > 0 {
        lemma_same_up_to_case_char(t[0], t2[0]);
        lemma_case_variants_subrange(t, t2, 1, t.len() as int);
        assert(t.drop_first() == t.subrange(1, t.len() as int));
        assert(t2.drop_first() == t2.subrange(1, t2.len() as int));
        lemma_word_len_case_blind(t.drop_first(), t2.drop_first());
    }
}

proof fn lemma_words_keys_case_blind(t: Seq<char>, t2: Seq<char>, cfg: FeatureConfig)
    requires
        case_variants(t, t2),
    ensures
        spec_words_keys(spec_words(t), cfg) == spec_words_keys(spec_words(t2), cfg),
    decreases t.len(),
{
    if t.len() > 0 {
        lemma_same_up_to_case_char(t[0], t2[0]);
        if is_white_space(t[0]) {
            lemma_case_variants_subrange(t, t2, 1, t.len() as int);
            assert(t.drop_first() == t.subrange(1, t.len() as int));
            assert(t2.drop_first() == t2.subrange(1, t2.len() as int));
            lemma_words_keys_case_blind(t.drop_first(), t2.drop_first(), cfg);
        } else {
            lemma_word_len_case_blind(t, t2);
            lemma_word_len_bounds(t);
            let n = spec_word_len(t) as int;
            lemma_case_variants_subrange(t, t2, 0, n);
            lemma_case_variants_subrange(t, t2, n, t.len() as int);
            assert(t.take(n) == t.subrange(0, n));
            assert(t2.take(n) == t2.subrange(0, n));
            assert(t.skip(n) == t.subrange(n, t.len() as int));
            assert(t2.skip(n) == t2.subrange(n, t2.len() as int));
            lemma_words_keys_case_blind(t.skip(n), t2.skip(n), cfg);
            lemma_word_keys_case_blind(t.take(n), t2.take(n), cfg);
            let ws = spec_words(t);
            let ws2 = spec_words(t2);
            assert(ws == seq![t.take(n)] + spec_words(t.skip(n)));
            assert(ws2 == seq![t2.take(n)] + spec_words(t2.skip(n)));
            assert(ws[0] == t.take(n));
            assert(ws2[0] == t2.take(n));
            assert(ws.drop_first() == spec_words(t.skip(n)));
            assert(ws2.drop_first() == spec_words(t2.skip(n)));
        }
    }
}

/// Keys are blind to case: switching any ASCII letter or any letter of the
/// Cyrillic block `U+0400-U+045F` to its other case (`A`/`a`, `Б`/`б`,
/// `Ё`/`ё`) leaves the key sequence unchanged — classification folds ASCII
/// case and letters are lowercased before packing.
pub proof fn lemma_keys_are_case_blind(t: Seq<char>, t2: Seq<char>, cfg: FeatureConfig)
    requires
        case_variants(t, t2),
    ensures
        spec_token_keys(t, cfg) == spec_token_keys(t2, cfg),
{
    lemma_words_keys_case_blind(t, t2, cfg);
}

/// Lowercasing distributes over a split of the word.
pub proof fn lemma_lower_all_split(s: Seq<char>, i: int)
    requires
        0 <= i <= s.len(),
    ensures
        spec_lower_all(s) == spec_lower_all(s.take(i)) + spec_lower_all(s.skip(i)),
    decreases s.len(),
{
    if i == s.len() {
        assert(s.take(i) == s);
        assert(s.skip(i) == Seq::<char>::empty());
        assert(spec_lower_all(s) + Seq::<char>::empty() == spec_lower_all(s));
    } else {
        lemma_lower_all_split(s.drop_last(), i);
        assert(s.drop_last().take(i) == s.take(i));
        assert(s.skip(i).drop_last() == s.drop_last().skip(i));
        assert(s.skip(i).last() == s.last());
        assert(spec_lower_all(s.skip(i)) == spec_lower_all(s.drop_last().skip(i)) + spec_lower_char(
            s.last(),
        ));
        assert(spec_lower_all(s) == spec_lower_all(s.take(i)) + spec_lower_all(s.skip(i)));
    }
}

/// The word length of `s` is exactly a run of `k` non-whitespace chars
/// ended by whitespace or the end of `s`.
pub proof fn lemma_word_len_exact(s: Seq<char>, k: int)
    requires
        0 <= k <= s.len(),
        forall|m: int| 0 <= m < k ==> !is_white_space(#[trigger] s[m]),
        k == s.len() || is_white_space(s[k]),
    ensures
        spec_word_len(s) == k,
    decreases k,
{
    if k > 0 {
        assert forall|m: int| 0 <= m < k - 1 implies !is_white_space(#[trigger] s.drop_first()[m]) by {
            assert(s.drop_first()[m] == s[m + 1]);
        }
        lemma_word_len_exact(s.drop_first(), k - 1);
    }
}

/// The register state after feeding `units`: the packed register and the
/// (capped) unit count.
pub open spec fn packer_state(r: u64, len: usize, units: Seq<char>) -> bool {
    r == spec_pack(units) && len == if units.len() < 256 {
        units.len()
    } else {
        256
    }
}

/// Feed one unit, keeping `keys == base + spec_units_keys(units)`.
fn feed_unit<S: KeySink>(
    r: &mut u64,
    len: &mut usize,
    c: char,
    cfg: &FeatureConfig,
    sink: &mut S,
    Ghost(base): Ghost<Seq<u64>>,
    Ghost(units): Ghost<Seq<char>>,
)
    requires
        packer_state(*old(r), *old(len), units),
        orders_fit_at(units.len() + 1, *cfg),
        old(sink).keys() == base + spec_units_keys(units, *cfg),
    ensures
        packer_state(*final(r), *final(len), units.push(c)),
        final(sink).keys() == base + spec_units_keys(units.push(c), *cfg),
{
    feed(r, len, c, cfg, sink, Ghost(units));
    assert(units.push(c).drop_last() == units);
    assert(base + spec_units_keys(units, *cfg) + spec_step_keys(units.push(c), *cfg) == base
        + spec_units_keys(units.push(c), *cfg));
}

/// Feed the lowercase chars of one char.
fn feed_lower_char<S: KeySink>(
    r: &mut u64,
    len: &mut usize,
    c: char,
    cfg: &FeatureConfig,
    sink: &mut S,
    Ghost(base): Ghost<Seq<u64>>,
    Ghost(units): Ghost<Seq<char>>,
    Ghost(limit): Ghost<nat>,
)
    requires
        packer_state(*old(r), *old(len), units),
        units.len() + spec_lower_char(c).len() <= limit,
        orders_fit_at(limit, *cfg),
        old(sink).keys() == base + spec_units_keys(units, *cfg),
    ensures
        packer_state(*final(r), *final(len), units + spec_lower_char(c)),
        final(sink).keys() == base + spec_units_keys(units + spec_lower_char(c), *cfg),
{
    match fast_lower(c) {
        Some(lc) => {
            feed_unit(r, len, lc, cfg, sink, Ghost(base), Ghost(units));
            assert(units.push(lc) == units + spec_lower_char(c));
        },
        None => {
            let lcs = lowercase_chars(c);
            let ghost mut cur = units;
            let mut j: usize = 0;
            while j < lcs.len()
                invariant
                    j <= lcs@.len(),
                    lcs@ == spec_lower_char(c),
                    units.len() + lcs@.len() <= limit,
                    orders_fit_at(limit, *cfg),
                    cur == units + lcs@.take(j as int),
                    packer_state(*r, *len, cur),
                    sink.keys() == base + spec_units_keys(cur, *cfg),
                decreases lcs@.len() - j,
            {
                let lc = lcs[j];
                feed_unit(r, len, lc, cfg, sink, Ghost(base), Ghost(cur));
                proof {
                    cur = cur.push(lc);
                    assert(cur == units + lcs@.take(j + 1));
                }
                j = j + 1;
            }
            assert(lcs@.take(lcs@.len() as int) == lcs@);
        },
    }
}

/// Feed the lowercase form of a whole word.
fn feed_lower_word<S: KeySink>(
    r: &mut u64,
    len: &mut usize,
    w: &[char],
    cfg: &FeatureConfig,
    sink: &mut S,
    Ghost(base): Ghost<Seq<u64>>,
    Ghost(units): Ghost<Seq<char>>,
    Ghost(limit): Ghost<nat>,
)
    requires
        packer_state(*old(r), *old(len), units),
        units.len() + spec_lower_all(w@).len() <= limit,
        orders_fit_at(limit, *cfg),
        old(sink).keys() == base + spec_units_keys(units, *cfg),
    ensures
        packer_state(*final(r), *final(len), units + spec_lower_all(w@)),
        final(sink).keys() == base + spec_units_keys(units + spec_lower_all(w@), *cfg),
{
    let n = w.len();
    let mut i: usize = 0;
    assert(units + spec_lower_all(w@.take(0)) == units);
    while i < n
        invariant
            n == w@.len(),
            i <= n,
            units.len() + spec_lower_all(w@).len() <= limit,
            orders_fit_at(limit, *cfg),
            packer_state(*r, *len, units + spec_lower_all(w@.take(i as int))),
            sink.keys() == base + spec_units_keys(units + spec_lower_all(w@.take(i as int)), *cfg),
        decreases n - i,
    {
        proof {
            lemma_lower_all_split(w@, i + 1);
            assert(w@.take(i + 1).drop_last() == w@.take(i as int));
            assert(w@.take(i + 1).last() == w@[i as int]);
        }
        let ghost cur = units + spec_lower_all(w@.take(i as int));
        feed_lower_char(r, len, w[i], cfg, sink, Ghost(base), Ghost(cur), Ghost(limit));
        proof {
            assert(cur + spec_lower_char(w@[i as int]) == units + spec_lower_all(w@.take(i + 1)));
        }
        i = i + 1;
    }
    assert(w@.take(n as int) == w@);
}

/// Emit the keys of one whitespace-delimited word.
fn emit_word<S: KeySink>(word: &[char], cfg: &FeatureConfig, sink: &mut S)
    requires
        word_orders_fit(word@, *cfg),
    ensures
        final(sink).keys() == old(sink).keys() + spec_word_keys(word@, *cfg),
{
    // Hashtag: strip one '#' and classify the inner word.
    let start: usize = if word.len() > 0 && word[0] == '#' {
        1
    } else {
        0
    };
    let mut stripped: Vec<char> = Vec::new();
    let mut m: usize = start;
    while m < word.len()
        invariant
            start <= m <= word@.len(),
            start <= 1,
            stripped@ == word@.subrange(start as int, m as int),
        decreases word@.len() - m,
    {
        stripped.push(word[m]);
        m = m + 1;
    }
    assert(stripped@ == strip_hash(word@));
    let ghost base = old(sink).keys();
    if stripped.len() == 0 {
        assert(base + Seq::<u64>::empty() == base);
        return;
    }
    let ghost full = spec_word_units(stripped@);
    let ghost limit = full.len();
    let sentinel: Option<char> = match classify_chars(stripped.as_slice()) {
        WordClass::Word => None,
        WordClass::Url => Some(SENTINEL_URL),
        WordClass::Email => Some(SENTINEL_EMAIL),
        WordClass::Mention => Some(SENTINEL_MENTION),
        WordClass::Num => Some(SENTINEL_NUM),
    };
    assert(sentinel == sentinel_of(spec_classify(stripped@)));
    let mut r: u64 = 0;
    let mut len: usize = 0;
    let ghost empty = Seq::<char>::empty();
    assert(base + spec_units_keys(empty, *cfg) == base);
    assert(orders_fit_at(limit, *cfg));
    feed_unit(&mut r, &mut len, BOW, cfg, sink, Ghost(base), Ghost(empty));
    let ghost head = empty.push(BOW);
    let ghost body = match sentinel {
        Some(sc) => seq![sc],
        None => spec_lower_all(stripped@),
    };
    assert(full == head + body + seq![EOW]);
    match sentinel {
        Some(sc) => {
            feed_unit(&mut r, &mut len, sc, cfg, sink, Ghost(base), Ghost(head));
            assert(head.push(sc) == head + body);
        },
        None => {
            feed_lower_word(
                &mut r,
                &mut len,
                stripped.as_slice(),
                cfg,
                sink,
                Ghost(base),
                Ghost(head),
                Ghost(limit),
            );
        },
    }
    feed_unit(&mut r, &mut len, EOW, cfg, sink, Ghost(base), Ghost(head + body));
    assert((head + body).push(EOW) == full);
}

/// Streaming n-gram extraction: hands every packed n-gram key of `text` to
/// `sink` in encounter order (see [`spec_token_keys`]).
///
/// Rolling packer: one `u64` register per word, shifted by 21 bits per
/// character; the n-gram keys ending at each character are masks of the
/// register (n <= 3) or the full, wrapped register (n >= 4).
pub fn for_each_key<S: KeySink>(text: &str, cfg: &FeatureConfig, sink: &mut S)
    requires
        spec_orders_fit(text@, *cfg),
    ensures
        final(sink).keys() == old(sink).keys() + spec_token_keys(text@, *cfg),
{
    let chars = str_chars(text);
    let n = chars.len();
    let mut i: usize = 0;
    assert(text@.skip(0) == text@);
    while i < n
        invariant
            n == text@.len(),
            chars@ == text@,
            i <= n,
            sink.keys() + spec_words_keys(spec_words(text@.skip(i as int)), *cfg) == old(
                sink,
            ).keys() + spec_token_keys(text@, *cfg),
            spec_orders_fit(text@.skip(i as int), *cfg),
        decreases n - i,
    {
        let ghost rest = text@.skip(i as int);
        if is_whitespace(chars[i]) {
            proof {
                assert(rest.drop_first() == text@.skip(i + 1));
            }
            i = i + 1;
        } else {
            let mut j: usize = i;
            let mut word: Vec<char> = Vec::new();
            while j < n && !is_whitespace(chars[j])
                invariant
                    i <= j <= n,
                    n == text@.len(),
                    chars@ == text@,
                    word@ == text@.subrange(i as int, j as int),
                    forall|m: int| i <= m < j ==> !is_white_space(#[trigger] text@[m]),
                decreases n - j,
            {
                word.push(chars[j]);
                j = j + 1;
            }
            let ghost k = (j - i) as int;
            proof {
                assert forall|m: int| 0 <= m < k implies !is_white_space(#[trigger] rest[m]) by {
                    assert(rest[m] == text@[i + m]);
                }
                lemma_word_len_exact(rest, k);
                lemma_word_len_bounds(rest);
                assert(rest.take(k) == word@);
                assert(rest.skip(k) == text@.skip(j as int));
                let ws = spec_words(rest);
                assert(ws == seq![word@] + spec_words(text@.skip(j as int)));
                assert(ws[0] == word@);
                assert(ws.drop_first() == spec_words(text@.skip(j as int)));
                assert(word_orders_fit(ws[0], *cfg));
                assert forall|m: int|
                    0 <= m < spec_words(text@.skip(j as int)).len() implies word_orders_fit(
                    #[trigger] spec_words(text@.skip(j as int))[m],
                    *cfg,
                ) by {
                    assert(spec_words(text@.skip(j as int))[m] == ws[m + 1]);
                }
            }
            let ghost before = sink.keys();
            emit_word(word.as_slice(), cfg, sink);
            proof {
                let ws = spec_words(rest);
                assert(spec_words_keys(ws, *cfg) == spec_word_keys(word@, *cfg) + spec_words_keys(
                    spec_words(text@.skip(j as int)),
                    *cfg,
                ));
                assert(sink.keys() + spec_words_keys(spec_words(text@.skip(j as int)), *cfg)
                    == before + spec_words_keys(ws, *cfg));
            }
            i = j;
        }
    }
    proof {
        assert(text@.skip(n as int) == Seq::<char>::empty());
        assert(sink.keys() + Seq::<u64>::empty() == sink.keys());
    }
}

/// Extract packed n-gram keys from `text`, in encounter order.
pub fn token_keys(text: &str, cfg: &FeatureConfig) -> (r: Vec<u64>)
    requires
        spec_orders_fit(text@, *cfg),
    ensures
        r@ == spec_token_keys(text@, *cfg),
{
    let mut keys: Vec<u64> = Vec::new();
    for_each_key(text, cfg, &mut keys);
    assert(Seq::<u64>::empty() + spec_token_keys(text@, *cfg) == spec_token_keys(text@, *cfg));
    keys
}

/// Bit facts about one packing step `(x << 21) | c` with `c < 2^21`.
proof fn lemma_pack_step_bits(x: u64, c: u64)
    requires
        c < 0x20_0000,
    ensures
        ((x << 21u32) | c) & M1 == c,
        ((x << 21u32) | c) & M2 == ((x & M1) << 21u32) | c,
        ((x << 21u32) | c) & M3 == ((x & M2) << 21u32) | c,
        (x << 21u32) | c == ((x & M3) << 21u32) | c,
        (0u64 << 21u32) | c == c,
{
    assert(((x << 21u32) | c) & 0x1F_FFFFu64 == c) by (bit_vector)
        requires
            c < 0x20_0000u64,
    ;
    assert(((x << 21u32) | c) & 0x3FF_FFFF_FFFFu64 == ((x & 0x1F_FFFFu64) << 21u32) | c)
        by (bit_vector)
        requires
            c < 0x20_0000u64,
    ;
    assert(((x << 21u32) | c) & 0x7FFF_FFFF_FFFF_FFFFu64 == ((x & 0x3FF_FFFF_FFFFu64) << 21u32) | c)
        by (bit_vector)
        requires
            c < 0x20_0000u64,
    ;
    assert((x << 21u32) | c == ((x & 0x7FFF_FFFF_FFFF_FFFFu64) << 21u32) | c) by (bit_vector);
    assert((0u64 << 21u32) | c == c) by (bit_vector);
}

/// Widening a char to u64 keeps its scalar value.
proof fn lemma_char_u64(c: char)
    ensures
        c as u64 as int == c as int,
{
}

/// A char's packed lane: its scalar value, which fits in 21 bits.
proof fn lemma_char_lane(c: char)
    ensures
        (c as u64) & CP_MASK == c as u64,
        (c as u64) < 0x20_0000,
{
    let v = c as u64;
    assert(v <= 0x10FFFF);
    assert(v <= 0x10FFFFu64 ==> v & 0x1F_FFFFu64 == v) by (bit_vector);
}

/// The rolling register's window of order `n` (`1 <= n <= 5`) is exactly the
/// packed key of the last `n` units: the rolling packer emits the same keys
/// as packing every window separately (the wrap for `n >= 4` is the one
/// `pack_ngram` itself performs).
pub proof fn lemma_window_is_packed_suffix(p: Seq<char>, n: nat)
    requires
        1 <= n <= 5,
        n <= p.len(),
    ensures
        spec_window(p, n) == spec_pack(p.subrange(p.len() - n, p.len() as int)),
    decreases n,
{
    let len = p.len() as int;
    let init = p.drop_last();
    let c = p.last() as u64;
    let x = spec_pack(init);
    let suffix = p.subrange(len - n, len);
    lemma_char_lane(p.last());
    lemma_pack_step_bits(x, c);
    assert(spec_pack(p) == (x << 21u32) | c);
    assert(suffix.last() == p.last());
    assert(suffix.drop_last() == init.subrange(init.len() - (n - 1), init.len() as int));
    assert(spec_pack(suffix) == (spec_pack(suffix.drop_last()) << 21u32) | c);
    if n == 1 {
        assert(suffix.drop_last() == Seq::<char>::empty());
    } else if n == 5 {
        lemma_window_is_packed_suffix(init, 4);
    } else {
        lemma_window_is_packed_suffix(init, (n - 1) as nat);
    }
}

/// Packing is injective on sequences of equal length up to 3: short words
/// are captured exactly.
pub proof fn lemma_pack_injective_short(a: Seq<char>, b: Seq<char>)
    requires
        a.len() == b.len(),
        a.len() <= 3,
        spec_pack(a) == spec_pack(b),
    ensures
        a == b,
    decreases a.len(),
{
    if a.len() > 0 {
        lemma_pack_bounded(a.drop_last());
        lemma_pack_bounded(b.drop_last());
        lemma_char_lane(a.last());
        lemma_char_lane(b.last());
        let x = spec_pack(a.drop_last());
        let y = spec_pack(b.drop_last());
        let ca = a.last() as u64;
        let cb = b.last() as u64;
        assert(spec_pack(a) == (x << 21u32) | ca);
        assert(spec_pack(b) == (y << 21u32) | cb);
        assert(((x << 21u32) | ca) == ((y << 21u32) | cb) && x < 0x400_0000_0000u64 && y
            < 0x400_0000_0000u64 && ca < 0x20_0000u64 && cb < 0x20_0000u64 ==> x == y && ca == cb)
            by (bit_vector);
        lemma_pack_injective_short(a.drop_last(), b.drop_last());
        lemma_char_u64(a.last());
        lemma_char_u64(b.last());
        assert(a.last() as int == b.last() as int);
        assert(a.last() == b.last());
        assert(a == a.drop_last().push(a.last()));
        assert(b == b.drop_last().push(b.last()));
    } else {
        assert(a =~= b);
    }
}

/// A packed sequence of at most two chars fits in 42 bits.
proof fn lemma_pack_bounded(s: Seq<char>)
    requires
        s.len() <= 2,
    ensures
        spec_pack(s) < 0x400_0000_0000u64,
    decreases s.len(),
{
    if s.len() > 0 {
        lemma_pack_bounded(s.drop_last());
        lemma_char_lane(s.last());
        let x = spec_pack(s.drop_last());
        let c = s.last() as u64;
        if s.len() == 1 {
            assert(x == 0);
            assert((0u64 << 21u32) | c == c) by (bit_vector);
        } else {
            lemma_pack_bounded_one(s.drop_last());
            assert(x < 0x20_0000u64 && c < 0x20_0000u64 ==> (x << 21u32) | c < 0x400_0000_0000u64)
                by (bit_vector);
        }
    }
}

/// `s` read as digits in base 2^21, most significant first.
pub open spec fn base_2_21_value(s: Seq<char>) -> int
    decreases s.len(),
{
    if s.len() == 0 {
        0
    } else {
        base_2_21_value(s.drop_last()) * 0x20_0000 + (s.last() as u64) as int
    }
}

/// Up to three chars pack without wrapping: the key is the chars read as
/// base-2^21 digits, `((c0 << 21 | c1) << 21 | c2)` (every code point is
/// below 2^21).
pub proof fn lemma_pack_is_base_2_21_value(s: Seq<char>)
    requires
        s.len() <= 3,
    ensures
        spec_pack(s) as int == base_2_21_value(s),
    decreases s.len(),
{
    if s.len() > 0 {
        let init = s.drop_last();
        lemma_pack_is_base_2_21_value(init);
        lemma_char_lane(s.last());
        lemma_pack_bounded(init);
        let x = spec_pack(init);
        let c = s.last() as u64;
        assert((x << 21u32) | c == x * 0x20_0000 + c) by (bit_vector)
            requires
                x < 0x400_0000_0000u64,
                c < 0x20_0000u64,
        ;
        assert(spec_pack(s) == (x << 21u32) | c);
        assert(base_2_21_value(s) == base_2_21_value(init) * 0x20_0000 + c);
    }
}

/// A packed single char fits in 21 bits.
proof fn lemma_pack_bounded_one(s: Seq<char>)
    requires
        s.len() == 1,
    ensures
        spec_pack(s) < 0x20_0000u64,
{
    lemma_char_lane(s.last());
    let c = s.last() as u64;
    assert(s.drop_last().len() == 0);
    assert(spec_pack(s.drop_last()) == 0);
    assert((0u64 << 21u32) | c == c) by (bit_vector);
    assert(spec_pack(s) == (0u64 << 21u32) | c);
}

/// A token reduced to its signed bucket: `bucket` indexes the folded score
/// table, `neg` flips the row's contribution (signed hashing).
#[derive(Copy, Clone, Debug, PartialEq, Eq, Structural)]
pub struct BucketToken {
    pub bucket: u32,
    pub neg: bool,
}

/// The signed bucket of one key.
pub open spec fn spec_bucket_token(hasher: FeatureHasher, key: u64, log2_d: u32) -> BucketToken {
    BucketToken { bucket: hasher.spec_bucket(key, log2_d), neg: hasher.spec_negative(key) }
}

/// The signed bucket tokens of `text`: one per packed key, in key order.
pub open spec fn spec_bucket_tokens(
    text: Seq<char>,
    cfg: FeatureConfig,
    hasher: FeatureHasher,
    log2_d: u32,
) -> Seq<BucketToken> {
    spec_token_keys(text, cfg).map_values(|key: u64| spec_bucket_token(hasher, key, log2_d))
}

/// A consumer of signed buckets (the streaming end of [`for_each_bucket`]).
pub trait BucketSink {
    /// The tokens received so far, in order.
    spec fn tokens(&self) -> Seq<BucketToken>;

    /// Receive one signed bucket.
    fn push_bucket(&mut self, bucket: u32, neg: bool)
        ensures
            final(self).tokens() == old(self).tokens().push(BucketToken { bucket, neg }),
    ;
}

impl BucketSink for Vec<BucketToken> {
    open spec fn tokens(&self) -> Seq<BucketToken> {
        self@
    }

    fn push_bucket(&mut self, bucket: u32, neg: bool) {
        self.push(BucketToken { bucket, neg });
    }
}

/// Streaming signed-bucket extraction: hands `(bucket, neg)` for every
/// n-gram token of `text` to `sink`, in encounter order.
pub fn for_each_bucket<S: BucketSink>(
    text: &str,
    cfg: &FeatureConfig,
    hasher: &FeatureHasher,
    log2_d: u32,
    sink: &mut S,
)
    requires
        spec_orders_fit(text@, *cfg),
        0 < log2_d < 32,
    ensures
        final(sink).tokens() == old(sink).tokens() + spec_bucket_tokens(
            text@,
            *cfg,
            *hasher,
            log2_d,
        ),
{
    let keys = token_keys(text, cfg);
    let ghost all = spec_bucket_tokens(text@, *cfg, *hasher, log2_d);
    let mut i: usize = 0;
    while i < keys.len()
        invariant
            i <= keys@.len(),
            keys@ == spec_token_keys(text@, *cfg),
            all == spec_bucket_tokens(text@, *cfg, *hasher, log2_d),
            0 < log2_d < 32,
            sink.tokens() == old(sink).tokens() + all.take(i as int),
        decreases keys@.len() - i,
    {
        let (bucket, neg) = hasher.bucket(keys[i], log2_d);
        sink.push_bucket(bucket, neg);
        assert(all.take(i + 1) == all.take(i as int).push(BucketToken { bucket, neg }));
        i = i + 1;
    }
    assert(all.take(keys@.len() as int) == all);
}

/// Scratch-buffer variant of [`bucket_tokens`]: clears `out`, then fills it
/// with the signed bucket tokens of `text`.
pub fn bucket_tokens_into(
    text: &str,
    cfg: &FeatureConfig,
    hasher: &FeatureHasher,
    log2_d: u32,
    out: &mut Vec<BucketToken>,
)
    requires
        spec_orders_fit(text@, *cfg),
        0 < log2_d < 32,
    ensures
        final(out)@ == spec_bucket_tokens(text@, *cfg, *hasher, log2_d),
{
    out.clear();
    for_each_bucket(text, cfg, hasher, log2_d, out);
    assert(Seq::<BucketToken>::empty() + spec_bucket_tokens(text@, *cfg, *hasher, log2_d)
        == spec_bucket_tokens(text@, *cfg, *hasher, log2_d));
}

/// Extract signed bucket tokens from `text`: the full feature pipeline.
pub fn bucket_tokens(
    text: &str,
    cfg: &FeatureConfig,
    hasher: &FeatureHasher,
    log2_d: u32,
) -> (r: Vec<BucketToken>)
    requires
        spec_orders_fit(text@, *cfg),
        0 < log2_d < 32,
    ensures
        r@ == spec_bucket_tokens(text@, *cfg, *hasher, log2_d),
        forall|i: int| 0 <= i < r@.len() ==> #[trigger] r@[i].bucket < (1u32 << log2_d),
{
    let mut tokens: Vec<BucketToken> = Vec::new();
    bucket_tokens_into(text, cfg, hasher, log2_d, &mut tokens);
    proof {
        assert forall|i: int| 0 <= i < tokens@.len() implies #[trigger] tokens@[i].bucket < (1u32
            << log2_d) by {
            let key = spec_token_keys(text@, *cfg)[i];
            crate::hash::lemma_high_bits_in_range(hasher.spec_hash_u64(key), log2_d);
        }
    }
    tokens
}

/// Canonicalized words carry no content: two words of the same non-word
/// class (two URLs, two emails, …) produce identical keys whatever their
/// tails.
pub proof fn lemma_canonical_words_share_keys(a: Seq<char>, b: Seq<char>, cfg: FeatureConfig)
    requires
        strip_hash(a).len() > 0,
        strip_hash(b).len() > 0,
        spec_classify(strip_hash(a)) == spec_classify(strip_hash(b)),
        spec_classify(strip_hash(a)) != WordClass::Word,
    ensures
        spec_word_keys(a, cfg) == spec_word_keys(b, cfg),
{
    assert(spec_word_units(strip_hash(a)) == spec_word_units(strip_hash(b)));
}

/// Words that start with a non-ASCII char (Cyrillic abbreviations such as
/// `т.е.`, digit-bearing words such as `миллион2020`) are never
/// canonicalized: every non-word class needs an ASCII first char.
pub proof fn lemma_non_ascii_start_is_word(w: Seq<char>)
    requires
        w.len() > 0,
        !crate::text::is_ascii_char(w[0]),
    ensures
        spec_classify(w) == WordClass::Word,
{
    assert(!starts_with_ignore_case(w, http_prefix())) by {
        if starts_with_ignore_case(w, http_prefix()) {
            assert(w.take(7)[0] == w[0]);
        }
    }
    assert(!starts_with_ignore_case(w, https_prefix())) by {
        if starts_with_ignore_case(w, https_prefix()) {
            assert(w.take(8)[0] == w[0]);
        }
    }
    assert(!starts_with_ignore_case(w, www_prefix())) by {
        if starts_with_ignore_case(w, www_prefix()) {
            assert(w.take(4)[0] == w[0]);
        }
    }
    assert(!is_email_shape(w)) by {
        if is_email_shape(w) {
            let k = choose|k: int|
                0 < k < w.len() && #[trigger] w[k] == '@' && (forall|j: int|
                    0 <= j < w.len() && j != k ==> #[trigger] w[j] != '@') && (forall|j: int|
                    0 <= j < k ==> is_local_char(#[trigger] w[j])) && is_ascii_domain(w.skip(k + 1));
            assert(is_local_char(w[0]));
        }
    }
}

/// Order tagging keeps windows of different orders apart: the same
/// register read as an order-`a` and an order-`b` window (`a != b`) gives
/// two different keys.
pub proof fn lemma_order_tags_separate_orders(x: u64, a: int, b: int)
    requires
        0 <= a < 6,
        0 <= b < 6,
        a != b,
    ensures
        x ^ N_TAG@[a] != x ^ N_TAG@[b],
{
    let ta = N_TAG@[a];
    let tb = N_TAG@[b];
    assert(ta != tb);
    assert(x ^ ta != x ^ tb) by (bit_vector)
        requires
            ta != tb,
    ;
}

/// A hashtag keeps its word: `#w` produces the keys of `w` (one `#` is
/// stripped).
pub proof fn lemma_hashtag_keeps_word(w: Seq<char>, cfg: FeatureConfig)
    requires
        w.len() == 0 || w[0] != '#',
    ensures
        spec_word_keys(seq!['#'] + w, cfg) == spec_word_keys(w, cfg),
{
    assert((seq!['#'] + w).drop_first() == w);
}

/// Text made only of whitespace (or nothing) yields no keys.
pub proof fn lemma_blank_text_has_no_keys(text: Seq<char>, cfg: FeatureConfig)
    requires
        forall|i: int| 0 <= i < text.len() ==> is_white_space(#[trigger] text[i]),
    ensures
        spec_words(text) == Seq::<Seq<char>>::empty(),
        spec_token_keys(text, cfg) == Seq::<u64>::empty(),
    decreases text.len(),
{
    if text.len() > 0 {
        assert(is_white_space(text[0]));
        assert forall|i: int| 0 <= i < text.drop_first().len() implies is_white_space(
            #[trigger] text.drop_first()[i],
        ) by {
            assert(text.drop_first()[i] == text[i + 1]);
        }
        lemma_blank_text_has_no_keys(text.drop_first(), cfg);
    }
}

/// Number of units a (stripped, non-empty) word packs as, capped at 256.
fn units_len_capped(w: &[char]) -> (r: usize)
    requires
        w@.len() > 0,
    ensures
        r == if spec_word_units(w@).len() < 256 {
            spec_word_units(w@).len()
        } else {
            256
        },
{
    match classify_chars(w) {
        WordClass::Word => {},
        _ => {
            return 3;
        },
    }
    let mut total: usize = 0;
    let mut i: usize = 0;
    while i < w.len()
        invariant
            i <= w@.len(),
            total == if spec_lower_all(w@.take(i as int)).len() < 256 {
                spec_lower_all(w@.take(i as int)).len()
            } else {
                256
            },
        decreases w@.len() - i,
    {
        assert(w@.take(i + 1).drop_last() == w@.take(i as int));
        assert(w@.take(i + 1).last() == w@[i as int]);
        let n = match fast_lower(w[i]) {
            Some(_) => 1,
            None => lowercase_chars(w[i]).len(),
        };
        total = if n >= 256 || total + n >= 256 {
            256
        } else {
            total + n
        };
        i = i + 1;
    }
    assert(w@.take(w@.len() as int) == w@);
    if total >= 254 {
        256
    } else {
        total + 2
    }
}

/// Whether every word of `text` stays within the order tags: no word
/// emits an n-gram order above 5 (always true when `n_max <= 5`).
pub fn orders_fit(text: &str, cfg: &FeatureConfig) -> (r: bool)
    ensures
        r == spec_orders_fit(text@, *cfg),
{
    let chars = str_chars(text);
    let n = chars.len();
    let mut i: usize = 0;
    let ghost mut done: Seq<Seq<char>> = Seq::empty();
    assert(text@.skip(0) == text@);
    while i < n
        invariant
            n == text@.len(),
            chars@ == text@,
            i <= n,
            spec_words(text@) == done + spec_words(text@.skip(i as int)),
            forall|m: int| 0 <= m < done.len() ==> word_orders_fit(#[trigger] done[m], *cfg),
        decreases n - i,
    {
        let ghost rest = text@.skip(i as int);
        if is_whitespace(chars[i]) {
            proof {
                assert(rest.drop_first() == text@.skip(i + 1));
            }
            i = i + 1;
        } else {
            let mut j: usize = i;
            let mut word: Vec<char> = Vec::new();
            while j < n && !is_whitespace(chars[j])
                invariant
                    i <= j <= n,
                    n == text@.len(),
                    chars@ == text@,
                    word@ == text@.subrange(i as int, j as int),
                    forall|m: int| i <= m < j ==> !is_white_space(#[trigger] text@[m]),
                decreases n - j,
            {
                word.push(chars[j]);
                j = j + 1;
            }
            let ghost k = (j - i) as int;
            proof {
                assert forall|m: int| 0 <= m < k implies !is_white_space(#[trigger] rest[m]) by {
                    assert(rest[m] == text@[i + m]);
                }
                lemma_word_len_exact(rest, k);
                lemma_word_len_bounds(rest);
                assert(rest.take(k) == word@);
                assert(rest.skip(k) == text@.skip(j as int));
                assert(spec_words(rest) == seq![word@] + spec_words(text@.skip(j as int)));
            }
            // strip one '#'
            let start: usize = if word[0] == '#' {
                1
            } else {
                0
            };
            let mut stripped: Vec<char> = Vec::new();
            let mut m: usize = start;
            while m < word.len()
                invariant
                    start <= m <= word@.len(),
                    start <= 1,
                    stripped@ == word@.subrange(start as int, m as int),
                decreases word@.len() - m,
            {
                stripped.push(word[m]);
                m = m + 1;
            }
            assert(stripped@ == strip_hash(word@));
            if stripped.len() > 0 {
                let len = units_len_capped(stripped.as_slice());
                let n_max = cfg.n_max as usize;
                let top = if n_max < len {
                    n_max
                } else {
                    len
                };
                assert(top == top_order(spec_word_units(stripped@).len(), *cfg));
                if !(top <= 5 || top < cfg.n_min as usize) {
                    proof {
                        assert(spec_words(text@)[done.len() as int] == word@);
                    }
                    return false;
                }
            }
            proof {
                assert(word_orders_fit(word@, *cfg));
                let done2 = done.push(word@);
                assert(spec_words(text@) == done2 + spec_words(text@.skip(j as int)));
                done = done2;
            }
            i = j;
        }
    }
    proof {
        assert(text@.skip(n as int) == Seq::<char>::empty());
        assert(spec_words(text@) == done);
    }
    true
}

/// `local@domain` is an email whatever ASCII letters, digits and `. _ % + -`
/// its local part holds, given an ASCII domain (`mail.ru`) and a local part
/// that does not open like a URL (`www.`).
pub proof fn lemma_local_part_chars_make_an_email(local: Seq<char>, domain: Seq<char>)
    requires
        local.len() > 0,
        forall|j: int|
            0 <= j < local.len() ==> ('a' <= #[trigger] local[j] && local[j] <= 'z') || ('A'
                <= local[j] && local[j] <= 'Z') || ('0' <= local[j] && local[j] <= '9')
                || local[j] == '.' || local[j] == '_' || local[j] == '%' || local[j] == '+'
                || local[j] == '-',
        is_ascii_domain(domain),
        !starts_with_ignore_case(local, www_prefix()),
    ensures
        spec_classify(local + seq!['@'] + domain) == WordClass::Email,
{
    let w = local + seq!['@'] + domain;
    let k = local.len() as int;
    assert(w.len() == k + 1 + domain.len());
    assert forall|j: int| 0 <= j < k implies #[trigger] w[j] == local[j] && is_local_char(w[j])
        && w[j] != '@' && w[j] != ':' && ascii_fold(w[j]) != ':' by {
        assert(w[j] == local[j]);
    }
    assert(w[k] == '@');
    assert forall|j: int| k < j < w.len() implies #[trigger] w[j] == domain[j - k - 1]
        && w[j] != '@' && ascii_fold(w[j]) != ':' by {
        assert(w[j] == domain[j - k - 1]);
        assert(is_domain_char(domain[j - k - 1]));
    }
    assert(w.skip(k + 1) =~= domain);
    assert(is_email_shape(w));
    assert(w[0] != '@');
    // No URL prefix: `http://` and `https://` need a `:` that no char of
    // the word folds to; `www.` is ruled out by the local part, or meets
    // the `@` first.
    assert(!starts_with_ignore_case(w, http_prefix())) by {
        if starts_with_ignore_case(w, http_prefix()) {
            assert(w.take(7)[4] == w[4]);
            assert(http_prefix()[4] == ':');
        }
    }
    assert(!starts_with_ignore_case(w, https_prefix())) by {
        if starts_with_ignore_case(w, https_prefix()) {
            assert(w.take(8)[5] == w[5]);
            assert(https_prefix()[5] == ':');
        }
    }
    assert(!starts_with_ignore_case(w, www_prefix())) by {
        if starts_with_ignore_case(w, www_prefix()) {
            if k >= 4 {
                assert(w.take(4) =~= local.take(4));
            } else {
                assert(w.take(4)[k] == '@');
                assert(www_prefix()[k] == 'w' || www_prefix()[k] == '.');
            }
        }
    }
}

/// `label.tld`, a non-empty label of ASCII letters, digits and `-`, then a
/// TLD of at least two ASCII letters (`mail.ru`, `t.co`), is an ASCII
/// domain.
pub proof fn lemma_label_and_tld_make_a_domain(label: Seq<char>, tld: Seq<char>)
    requires
        label.len() > 0,
        forall|j: int|
            0 <= j < label.len() ==> ('a' <= #[trigger] label[j] && label[j] <= 'z') || ('A'
                <= label[j] && label[j] <= 'Z') || ('0' <= label[j] && label[j] <= '9')
                || label[j] == '-',
        tld.len() >= 2,
        forall|j: int|
            0 <= j < tld.len() ==> ('a' <= #[trigger] tld[j] && tld[j] <= 'z') || ('A' <= tld[j]
                && tld[j] <= 'Z'),
    ensures
        is_ascii_domain(label + seq!['.'] + tld),
{
    let d = label + seq!['.'] + tld;
    let k = label.len() as int;
    assert forall|i: int| 0 <= i < d.len() implies is_ascii_char(#[trigger] d[i]) && is_domain_char(
        d[i],
    ) && (i != k ==> d[i] != '.') by {
        if i < k {
            assert(d[i] == label[i]);
        } else if i > k {
            assert(d[i] == tld[i - k - 1]);
        }
    }
    assert(d[k] == '.');
    assert(d.contains('.'));
    assert(d[0] != '.');
    assert(d.last() == d[d.len() - 1]);
    assert(d.last() != '.');
    assert forall|i: int| 0 <= i < d.len() - 1 && #[trigger] d[i] == '.' implies d[i + 1] != '.' by {
    }
    assert forall|j: int| k < j < d.len() implies is_ascii_alpha(#[trigger] d[j]) by {
        assert(d[j] == tld[j - k - 1]);
    }
}

/// A plain address `local@label.tld` is an email: a local part of ASCII
/// letters, digits and `. _ % + -` not opening with `www.`, a label of
/// ASCII letters, digits and `-`, a TLD of two or more ASCII letters
/// (`ivan_petrov@mail.ru`).
pub proof fn lemma_plain_address_is_an_email(local: Seq<char>, label: Seq<char>, tld: Seq<char>)
    requires
        local.len() > 0,
        forall|j: int|
            0 <= j < local.len() ==> ('a' <= #[trigger] local[j] && local[j] <= 'z') || ('A'
                <= local[j] && local[j] <= 'Z') || ('0' <= local[j] && local[j] <= '9')
                || local[j] == '.' || local[j] == '_' || local[j] == '%' || local[j] == '+'
                || local[j] == '-',
        !starts_with_ignore_case(local, www_prefix()),
        label.len() > 0,
        forall|j: int|
            0 <= j < label.len() ==> ('a' <= #[trigger] label[j] && label[j] <= 'z') || ('A'
                <= label[j] && label[j] <= 'Z') || ('0' <= label[j] && label[j] <= '9')
                || label[j] == '-',
        tld.len() >= 2,
        forall|j: int|
            0 <= j < tld.len() ==> ('a' <= #[trigger] tld[j] && tld[j] <= 'z') || ('A' <= tld[j]
                && tld[j] <= 'Z'),
    ensures
        spec_classify(local + seq!['@'] + (label + seq!['.'] + tld)) == WordClass::Email,
{
    lemma_label_and_tld_make_a_domain(label, tld);
    lemma_local_part_chars_make_an_email(local, label + seq!['.'] + tld);
}

} // verus!
