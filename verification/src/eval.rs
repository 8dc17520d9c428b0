//! Evaluation support shared by the accuracy tools: length buckets,
//! the seeded sampler, tallies and fragment ladders. Reading eval files,
//! running detectors and printing reports happen outside this library.
use vstd::prelude::*;

use crate::features::{lemma_word_len_bounds, lemma_word_len_exact, spec_words};
use crate::language::{lemma_all_is_indexed, spec_from_code, Lang, UnknownLang, NUM_LANGS};
use crate::model::str_is;
use crate::sent::{trim, trimmed_bounds};
use crate::text::{
    has_letter, is_alphabetic, is_white_space, is_whitespace, str_chars, unicode_alphabetic,
};

verus! {

broadcast use vstd::multiset::group_multiset_axioms;

/// Char-length bucket of a text: 0 for at most 20 chars, 1 for 21 to 100,
/// 2 above.
pub open spec fn spec_len_bucket(n: nat) -> usize {
    if n <= 20 {
        0
    } else if n <= 100 {
        1
    } else {
        2
    }
}

/// Char-length bucket of `text`: 0 = ≤20 chars, 1 = 21–100, 2 = >100.
pub fn len_bucket(text: &str) -> (r: usize)
    ensures
        r == spec_len_bucket(text@.len()),
{
    let n = text.unicode_len();
    if n <= 20 {
        0
    } else if n <= 100 {
        1
    } else {
        2
    }
}

/// The generator state of a seed: the seed times the 64-bit golden-ratio
/// constant, wrapped, with the low bit set (xorshift must not start at 0).
pub open spec fn spec_simple_rng(seed: u32) -> u64 {
    ((seed as int * 0x9E37_79B9_7F4A_7C15) % 0x1_0000_0000_0000_0000) as u64 | 1
}

/// Seeded generator state for [`shuffle`]; the sample must be identical
/// across runs so that results are comparable.
pub fn simple_rng(seed: u32) -> (r: u64)
    ensures
        r == spec_simple_rng(seed),
{
    (seed as u64).wrapping_mul(0x9E37_79B9_7F4A_7C15) | 1
}

/// One xorshift64 step (shifts 13, 7, 17).
pub open spec fn xorshift_step(x: u64) -> u64 {
    let a = x ^ (x << 13u64);
    let b = a ^ (a >> 7u64);
    b ^ (b << 17u64)
}

/// Fisher–Yates from position `i` down to 1: step the generator, swap item
/// `i` with item `rng % (i + 1)`. Returns the items and the final state.
pub open spec fn shuffle_from<T>(s: Seq<T>, rng: u64, i: nat) -> (Seq<T>, u64)
    decreases i,
{
    if i == 0 || i >= s.len() {
        (s, rng)
    } else {
        let r = xorshift_step(rng);
        let j = (r as int) % (i as int + 1);
        shuffle_from(s.update(i as int, s[j]).update(j, s[i as int]), r, (i - 1) as nat)
    }
}

/// The whole shuffle of `s` from generator state `rng`.
pub open spec fn spec_shuffle<T>(s: Seq<T>, rng: u64) -> (Seq<T>, u64) {
    if s.len() <= 1 {
        (s, rng)
    } else {
        shuffle_from(s, rng, (s.len() - 1) as nat)
    }
}

/// Exchanging two items keeps the multiset of items.
proof fn lemma_swap_keeps_multiset<T>(s: Seq<T>, i: int, j: int)
    requires
        0 <= j <= i < s.len(),
    ensures
        s.update(i, s[j]).update(j, s[i]).to_multiset() == s.to_multiset(),
{
    broadcast use vstd::seq_lib::to_multiset_update, vstd::seq_lib::to_multiset_contains;

    if i == j {
        assert(s.update(i, s[j]).update(j, s[i]) == s);
    } else {
        let s1 = s.update(i, s[j]);
        assert(s1[j] == s[j]);
        assert(s.to_multiset().count(s[i]) > 0);
        assert(s.update(i, s[j]).update(j, s[i]).to_multiset() =~= s.to_multiset());
    }
}

/// Every step of the shuffle is a swap, so the result is a permutation.
proof fn lemma_shuffle_from_permutes<T>(s: Seq<T>, rng: u64, i: nat)
    ensures
        shuffle_from(s, rng, i).0.to_multiset() == s.to_multiset(),
        shuffle_from(s, rng, i).0.len() == s.len(),
    decreases i,
{
    if i != 0 && i < s.len() {
        let r = xorshift_step(rng);
        let j = (r as int) % (i as int + 1);
        lemma_swap_keeps_multiset(s, i as int, j);
        lemma_shuffle_from_permutes(
            s.update(i as int, s[j]).update(j, s[i as int]),
            r,
            (i - 1) as nat,
        );
    }
}

/// Shuffling permutes: the shuffled items are the input items, each as
/// often as before.
pub proof fn lemma_shuffle_is_permutation<T>(s: Seq<T>, rng: u64)
    ensures
        spec_shuffle(s, rng).0.to_multiset() == s.to_multiset(),
        spec_shuffle(s, rng).0.len() == s.len(),
{
    if s.len() > 1 {
        lemma_shuffle_from_permutes(s, rng, (s.len() - 1) as nat);
    }
}

/// Steps from `i` down never touch a slot above `i`.
proof fn lemma_shuffle_from_keeps_tail<T>(s: Seq<T>, rng: u64, i: nat, k: int)
    requires
        i < k < s.len(),
    ensures
        shuffle_from(s, rng, i).0[k] == s[k],
    decreases i,
{
    if i != 0 {
        let r = xorshift_step(rng);
        let j = (r as int) % (i as int + 1);
        let s1 = s.update(i as int, s[j]).update(j, s[i as int]);
        lemma_shuffle_from_keeps_tail(s1, r, (i - 1) as nat, k);
    }
}

/// The last slot of a shuffled sequence receives the item at
/// `xorshift_step(rng) % len`, the last item itself included: the first
/// step draws its partner from the whole range, as Fisher–Yates does, so an
/// item may stay where it is.
pub proof fn lemma_shuffle_last_slot<T>(s: Seq<T>, rng: u64)
    requires
        s.len() >= 2,
    ensures
        spec_shuffle(s, rng).0[s.len() - 1] == s[(xorshift_step(rng) as int) % (s.len() as int)],
{
    let n = s.len() as int;
    let i = (n - 1) as nat;
    let r = xorshift_step(rng);
    let j = (r as int) % (i as int + 1);
    let s1 = s.update(i as int, s[j]).update(j, s[i as int]);
    assert(s1[n - 1] == s[j]);
    if i > 0 {
        lemma_shuffle_from_keeps_tail(s1, r, (i - 1) as nat, n - 1);
    }
}

/// The generator state after `k` xorshift steps.
pub open spec fn xorshift_steps(x: u64, k: nat) -> u64
    decreases k,
{
    if k == 0 {
        x
    } else {
        xorshift_steps(xorshift_step(x), (k - 1) as nat)
    }
}

proof fn lemma_shuffle_from_state<T>(s: Seq<T>, rng: u64, i: nat)
    requires
        i < s.len(),
    ensures
        shuffle_from(s, rng, i).1 == xorshift_steps(rng, i),
    decreases i,
{
    if i != 0 {
        let r = xorshift_step(rng);
        let j = (r as int) % (i as int + 1);
        let s1 = s.update(i as int, s[j]).update(j, s[i as int]);
        lemma_shuffle_from_state(s1, r, (i - 1) as nat);
    }
}

/// Shuffling `n` items steps the generator once per item after the first:
/// the state handed on is `n - 1` xorshift steps past the one given (none
/// for fewer than two items), so consecutive shuffles draw fresh numbers.
pub proof fn lemma_shuffle_advances_generator<T>(s: Seq<T>, rng: u64)
    ensures
        spec_shuffle(s, rng).1 == (if s.len() <= 1 {
            rng
        } else {
            xorshift_steps(rng, (s.len() - 1) as nat)
        }),
{
    if s.len() > 1 {
        lemma_shuffle_from_state(s, rng, (s.len() - 1) as nat);
    }
}

/// Exchange items `j < i` of a slice.
fn swap_items<T>(items: &mut [T], j: usize, i: usize)
    requires
        j < i < old(items)@.len(),
    ensures
        final(items)@ == old(items)@.update(i as int, old(items)@[j as int]).update(
            j as int,
            old(items)@[i as int],
        ),
{
    let ghost s = items@;
    let (left, right) = items.split_at_mut(i);
    let (_, mid) = left.split_at_mut(j);
    let a = mid.first_mut().unwrap();
    let b = right.first_mut().unwrap();
    std::mem::swap(a, b);
    proof {
        assert(items@ =~= s.update(i as int, s[j as int]).update(j as int, s[i as int]));
    }
}

/// Fisher–Yates shuffle driven by xorshift64: for `i` from the last index
/// down to 1, step the generator and swap item `i` with item
/// `rng % (i + 1)`. The generator state is advanced in place.
pub fn shuffle<T>(items: &mut [T], rng: &mut u64)
    ensures
        (final(items)@, *final(rng)) == spec_shuffle(old(items)@, *old(rng)),
        final(items)@.to_multiset() == old(items)@.to_multiset(),
{
    proof {
        lemma_shuffle_is_permutation(items@, *rng);
    }
    let ghost target = spec_shuffle(items@, *rng);
    let n = items.len();
    if n <= 1 {
        return ;
    }
    let mut i: usize = n - 1;
    while i >= 1
        invariant
            items@.len() == n,
            i < n,
            shuffle_from(items@, *rng, i as nat) == target,
        decreases i,
    {
        let mut x: u64 = *rng;
        x = x ^ (x << 13u64);
        x = x ^ (x >> 7u64);
        x = x ^ (x << 17u64);
        *rng = x;
        let j = (x % (i as u64 + 1)) as usize;
        proof {
            assert(x % ((i as u64 + 1) as u64) <= i) by (nonlinear_arith)
                requires
                    i < 0xFFFF_FFFF_FFFF_FFFF,
            ;
        }
        if j < i {
            swap_items(items, j, i);
        } else {
            proof {
                assert(items@.update(i as int, items@[j as int]).update(
                    j as int,
                    items@[i as int],
                ) =~= items@);
            }
        }
        i = i - 1;
    }
}

/// The letter-bearing words among `ws`, in order.
pub open spec fn letter_words(ws: Seq<Seq<char>>) -> Seq<Seq<char>>
    decreases ws.len(),
{
    if ws.len() == 0 {
        Seq::empty()
    } else if has_letter(ws[0]) {
        seq![ws[0]] + letter_words(ws.drop_first())
    } else {
        letter_words(ws.drop_first())
    }
}

/// Letter-bearing whitespace tokens of a text (the building blocks of
/// fragments; tokens of punctuation or digits only carry no language
/// signal).
pub fn word_tokens(text: &str) -> (r: Vec<&str>)
    ensures
        r@.map_values(|t: &str| t@) == letter_words(spec_words(text@)),
{
    let chars = str_chars(text);
    let n = chars.len();
    let mut out: Vec<&str> = Vec::new();
    let mut i: usize = 0;
    assert(text@.skip(0) == text@);
    while i < n
        invariant
            n == text@.len(),
            chars@ == text@,
            i <= n,
            out@.map_values(|t: &str| t@) + letter_words(spec_words(text@.skip(i as int)))
                == letter_words(spec_words(text@)),
        decreases n - i,
    {
        let ghost rest = text@.skip(i as int);
        if is_whitespace(chars[i]) {
            proof {
                assert(rest.drop_first() == text@.skip(i + 1));
            }
            i = i + 1;
        } else {
            let mut j: usize = i;
            let mut letter = false;
            while j < n && !is_whitespace(chars[j])
                invariant
                    i <= j <= n,
                    n == text@.len(),
                    chars@ == text@,
                    forall|m: int| i <= m < j ==> !is_white_space(#[trigger] text@[m]),
                    letter <==> exists|m: int| i <= m < j && unicode_alphabetic(#[trigger] text@[m]),
                decreases n - j,
            {
                if is_alphabetic(chars[j]) {
                    letter = true;
                }
                j = j + 1;
            }
            let ghost k = (j - i) as int;
            let ghost word = text@.subrange(i as int, j as int);
            proof {
                assert forall|m: int| 0 <= m < k implies !is_white_space(#[trigger] rest[m]) by {
                    assert(rest[m] == text@[i + m]);
                }
                lemma_word_len_exact(rest, k);
                lemma_word_len_bounds(rest);
                assert(rest.take(k) == word);
                assert(rest.skip(k) == text@.skip(j as int));
                let ws = spec_words(rest);
                assert(ws == seq![word] + spec_words(text@.skip(j as int)));
                assert(ws[0] == word);
                assert(ws.drop_first() == spec_words(text@.skip(j as int)));
                if letter {
                    let m = choose|m: int| i <= m < j && unicode_alphabetic(#[trigger] text@[m]);
                    assert(word[m - i] == text@[m]);
                } else {
                    assert forall|q: int| 0 <= q < word.len() implies !unicode_alphabetic(
                        #[trigger] word[q],
                    ) by {
                        assert(word[q] == text@[i + q]);
                    }
                }
                assert(has_letter(word) == letter);
            }
            if letter {
                let token = text.substring_char(i, j);
                let ghost before = out@.map_values(|t: &str| t@);
                out.push(token);
                proof {
                    assert(out@.map_values(|t: &str| t@) == before.push(word));
                    assert(before.push(word) + letter_words(spec_words(text@.skip(j as int)))
                        == before + letter_words(spec_words(rest)));
                }
            }
            i = j;
        }
    }
    proof {
        assert(text@.skip(n as int) == Seq::<char>::empty());
        assert(out@.map_values(|t: &str| t@) + Seq::<Seq<char>>::empty() == out@.map_values(
            |t: &str| t@,
        ));
    }
    out
}

/// Words joined by single spaces.
pub open spec fn spec_join(ws: Seq<Seq<char>>) -> Seq<char>
    decreases ws.len(),
{
    if ws.len() == 0 {
        Seq::empty()
    } else if ws.len() == 1 {
        ws[0]
    } else {
        spec_join(ws.drop_last()) + seq![' '] + ws.last()
    }
}

/// The consecutive `n`-word windows of `ws`, each joined by single spaces.
pub open spec fn joined_windows(ws: Seq<Seq<char>>, n: nat) -> Seq<Seq<char>> {
    let count: nat = if ws.len() >= n {
        (ws.len() - n + 1) as nat
    } else {
        0
    };
    Seq::new(count, |w: int| spec_join(ws.subrange(w, w + n)))
}

/// The `n`-word fragments of labeled texts: for each text in order, its
/// letter-bearing word windows joined by single spaces, labeled with the
/// text's gold language.
pub open spec fn spec_fragments(rows: Seq<(Lang, Seq<char>)>, n: nat) -> Seq<(Lang, Seq<char>)>
    decreases rows.len(),
{
    if rows.len() == 0 {
        Seq::empty()
    } else {
        let gold = rows.last().0;
        spec_fragments(rows.drop_last(), n) + joined_windows(
            letter_words(spec_words(rows.last().1)),
            n,
        ).map_values(|f: Seq<char>| (gold, f))
    }
}

/// The plain view of labeled texts.
pub open spec fn labeled_view(rows: Seq<(Lang, String)>) -> Seq<(Lang, Seq<char>)> {
    rows.map_values(|p: (Lang, String)| (p.0, p.1@))
}

/// `words[from..to]` joined by single spaces.
fn join_window(words: &Vec<&str>, from: usize, to: usize) -> (r: String)
    requires
        from < to <= words@.len(),
    ensures
        r@ == spec_join(words@.map_values(|t: &str| t@).subrange(from as int, to as int)),
{
    let ghost ws = words@.map_values(|t: &str| t@);
    let mut out = String::from_str(words[from]);
    let mut k: usize = from + 1;
    proof {
        reveal_strlit(" ");
        assert(ws.subrange(from as int, k as int) == seq![ws[from as int]]);
    }
    while k < to
        invariant
            from < k <= to,
            to <= words@.len(),
            ws == words@.map_values(|t: &str| t@),
            out@ == spec_join(ws.subrange(from as int, k as int)),
            " "@ == seq![' '],
        decreases to - k,
    {
        out.append(" ");
        out.append(words[k]);
        proof {
            let next = ws.subrange(from as int, k + 1);
            assert(next.drop_last() == ws.subrange(from as int, k as int));
            assert(next.last() == words@[k as int]@);
        }
        k = k + 1;
    }
    out
}

/// Consecutive `n`-word fragments of each text joined by a single space,
/// labeled with the source text's gold language.
pub fn fragments(rows: &[(Lang, String)], n: usize) -> (r: Vec<(Lang, String)>)
    requires
        n >= 1,
    ensures
        labeled_view(r@) == spec_fragments(labeled_view(rows@), n as nat),
{
    let mut out: Vec<(Lang, String)> = Vec::new();
    let mut q: usize = 0;
    while q < rows.len()
        invariant
            q <= rows@.len(),
            n >= 1,
            labeled_view(out@) == spec_fragments(labeled_view(rows@.take(q as int)), n as nat),
        decreases rows@.len() - q,
    {
        let gold = rows[q].0;
        let tokens = word_tokens(rows[q].1.as_str());
        let ghost ws = tokens@.map_values(|t: &str| t@);
        let ghost done = labeled_view(out@);
        let ghost wins = joined_windows(ws, n as nat);
        let mut w: usize = 0;
        if tokens.len() >= n {
            while w <= tokens.len() - n
                invariant
                    n >= 1,
                    tokens.len() >= n,
                    w <= tokens.len() - n + 1,
                    ws == tokens@.map_values(|t: &str| t@),
                    wins == joined_windows(ws, n as nat),
                    labeled_view(out@) == done + wins.take(w as int).map_values(
                        |f: Seq<char>| (gold, f),
                    ),
                decreases tokens.len() - n + 1 - w,
            {
                let frag = join_window(&tokens, w, w + n);
                let ghost before = labeled_view(out@);
                out.push((gold, frag));
                proof {
                    assert(labeled_view(out@) == before.push((gold, frag@)));
                    assert(wins.take(w + 1) == wins.take(w as int).push(wins[w as int]));
                    assert(wins.take(w + 1).map_values(|f: Seq<char>| (gold, f)) == wins.take(
                        w as int,
                    ).map_values(|f: Seq<char>| (gold, f)).push((gold, wins[w as int])));
                }
                w = w + 1;
            }
        }
        proof {
            assert(wins.take(w as int) == wins);
            let rs = labeled_view(rows@.take(q + 1));
            assert(rs.drop_last() == labeled_view(rows@.take(q as int)));
            assert(rs.last() == (gold, rows@[q as int].1@));
        }
        q = q + 1;
    }
    proof {
        assert(rows@.take(rows@.len() as int) == rows@);
    }
    out
}

/// Index of the first tab of `s` at or after `i`, or `s.len()` when there is
/// none.
pub open spec fn tab_from(s: Seq<char>, i: int) -> int
    decreases s.len() - i,
{
    if i >= s.len() {
        s.len() as int
    } else if s[i] == '\t' {
        i
    } else {
        tab_from(s, i + 1)
    }
}

/// A line of an eval file, `code<TAB>text`: nothing without a tab; else the
/// trimmed code before the first tab, parsed, with the text after it (or the
/// unparsable trimmed code).
pub open spec fn spec_parse_eval_line(line: Seq<char>) -> Option<
    Result<(Lang, Seq<char>), Seq<char>>,
> {
    let t = tab_from(line, 0);
    if t >= line.len() {
        None
    } else {
        let code = trim(line.subrange(0, t));
        match spec_from_code(code) {
            Some(lang) => Some(Ok((lang, line.subrange(t + 1, line.len() as int)))),
            None => Some(Err(code)),
        }
    }
}

/// Split a line of an eval file (`code<TAB>text`) at its first tab and
/// parse the trimmed code: `None` for a line without a tab, the rejected
/// code for an unknown one.
pub fn parse_eval_line(line: &str) -> (r: Option<Result<(Lang, &str), UnknownLang>>)
    ensures
        match r {
            None => spec_parse_eval_line(line@) is None,
            Some(Ok((lang, text))) => spec_parse_eval_line(line@) == Some(
                Ok::<(Lang, Seq<char>), Seq<char>>((lang, text@)),
            ),
            Some(Err(e)) => spec_parse_eval_line(line@) == Some(
                Err::<(Lang, Seq<char>), Seq<char>>(e.0@),
            ),
        },
{
    let chars = str_chars(line);
    let n = chars.len();
    let mut t: usize = 0;
    while t < n && chars[t] != '\t'
        invariant
            t <= n,
            n == line@.len(),
            chars@ == line@,
            tab_from(line@, t as int) == tab_from(line@, 0),
        decreases n - t,
    {
        t = t + 1;
    }
    if t >= n {
        return None;
    }
    let (a, b) = trimmed_bounds(chars.as_slice(), 0, t);
    let code = line.substring_char(a, b);
    let text = line.substring_char(t + 1, n);
    match Lang::from_code(code) {
        Ok(lang) => Some(Ok((lang, text))),
        Err(e) => Some(Err(e)),
    }
}

/// Languages of ours that whichlang can name.
pub const WHICHLANG_LANGS: [Lang; 10] = [
    Lang::Rus,
    Lang::Cmn,
    Lang::Deu,
    Lang::Eng,
    Lang::Fra,
    Lang::Hin,
    Lang::Jpn,
    Lang::Por,
    Lang::Spa,
    Lang::Ara,
];

/// Languages of ours that lingua can name.
pub const LINGUA_LANGS: [Lang; 17] = [
    Lang::Rus,
    Lang::Ukr,
    Lang::Bel,
    Lang::Bul,
    Lang::Mkd,
    Lang::Srp,
    Lang::Kaz,
    Lang::Mon,
    Lang::Eng,
    Lang::Spa,
    Lang::Fra,
    Lang::Por,
    Lang::Deu,
    Lang::Cmn,
    Lang::Jpn,
    Lang::Hin,
    Lang::Ara,
];

/// The label inventory a compared detector can express.
#[derive(Copy, Clone, Debug, PartialEq, Eq, Structural)]
pub enum Inventory {
    /// Every code (spellman itself).
    All,
    /// The codes of [`WHICHLANG_LANGS`].
    Whichlang,
    /// The codes of [`LINGUA_LANGS`].
    Lingua,
}

/// `code` is the code of one of `langs`.
pub open spec fn code_among(langs: Seq<Lang>, code: Seq<char>) -> bool {
    exists|i: int| 0 <= i < langs.len() && (#[trigger] langs[i]).spec_code() == code
}

impl Inventory {
    /// The inventory holds the language of `code`.
    pub open spec fn spec_supports(self, code: Seq<char>) -> bool {
        match self {
            Inventory::All => true,
            Inventory::Whichlang => code_among(WHICHLANG_LANGS@, code),
            Inventory::Lingua => code_among(LINGUA_LANGS@, code),
        }
    }

    /// Whether the inventory can express the gold code `code`.
    pub fn supports(self, code: &str) -> (r: bool)
        ensures
            r == self.spec_supports(code@),
    {
        match self {
            Inventory::All => true,
            Inventory::Whichlang => code_in(WHICHLANG_LANGS.as_slice(), code),
            Inventory::Lingua => code_in(LINGUA_LANGS.as_slice(), code),
        }
    }
}

fn code_in(langs: &[Lang], code: &str) -> (r: bool)
    ensures
        r == code_among(langs@, code@),
{
    let mut i: usize = 0;
    while i < langs.len()
        invariant
            i <= langs@.len(),
            forall|j: int| 0 <= j < i ==> (#[trigger] langs@[j]).spec_code() != code@,
        decreases langs@.len() - i,
    {
        if str_is(code, langs[i].code()) {
            return true;
        }
        i = i + 1;
    }
    false
}

/// Every gold code is expressible by spellman.
pub fn supports_all(code: &str) -> (r: bool)
    ensures
        r,
{
    Inventory::All.supports(code)
}

/// Whether whichlang can name the language of `code`.
pub fn supports_whichlang(code: &str) -> (r: bool)
    ensures
        r == code_among(WHICHLANG_LANGS@, code@),
{
    Inventory::Whichlang.supports(code)
}

/// Whether lingua can name the language of `code`.
pub fn supports_lingua(code: &str) -> (r: bool)
    ensures
        r == code_among(LINGUA_LANGS@, code@),
{
    Inventory::Lingua.supports(code)
}

/// Row `i` was answered with its gold code.
pub open spec fn row_ok(preds: Seq<Option<String>>, golds: Seq<&str>, i: int) -> bool {
    preds[i] matches Some(p) && p@ == golds[i]@
}

/// `(supported-gold rows, correct among them, correct overall)` over the
/// first `m` rows.
pub open spec fn spec_score(preds: Seq<Option<String>>, golds: Seq<&str>, inv: Inventory, m: int) -> (
    int,
    int,
    int,
)
    decreases m,
{
    if m <= 0 {
        (0, 0, 0)
    } else {
        let prev = spec_score(preds, golds, inv, m - 1);
        let i = m - 1;
        let ok: int = if row_ok(preds, golds, i) {
            1
        } else {
            0
        };
        if inv.spec_supports(golds[i]@) {
            (prev.0 + 1, prev.1 + ok, prev.2 + ok)
        } else {
            (prev.0, prev.1, prev.2 + ok)
        }
    }
}

proof fn lemma_score_bounds(preds: Seq<Option<String>>, golds: Seq<&str>, inv: Inventory, m: int)
    requires
        m >= 0,
    ensures
        0 <= spec_score(preds, golds, inv, m).1 <= spec_score(preds, golds, inv, m).0 <= m,
        0 <= spec_score(preds, golds, inv, m).2 <= m,
    decreases m,
{
    if m > 0 {
        lemma_score_bounds(preds, golds, inv, m - 1);
    }
}

/// Score one tool's predictions against the gold codes, row by row over
/// the rows both hold: how many gold codes the tool can express, how many
/// of those it got right, and how many rows it got right overall.
pub fn score(preds: &[Option<String>], golds: &[&str], inv: Inventory) -> (r: (usize, usize, usize))
    ensures
        r.0 as int == spec_score(preds@, golds@, inv, vstd::math::min(preds@.len() as int, golds@.len() as int)).0,
        r.1 as int == spec_score(preds@, golds@, inv, vstd::math::min(preds@.len() as int, golds@.len() as int)).1,
        r.2 as int == spec_score(preds@, golds@, inv, vstd::math::min(preds@.len() as int, golds@.len() as int)).2,
{
    let m = if preds.len() < golds.len() {
        preds.len()
    } else {
        golds.len()
    };
    let mut sup_rows: usize = 0;
    let mut sup_ok: usize = 0;
    let mut all_ok: usize = 0;
    let mut i: usize = 0;
    while i < m
        invariant
            i <= m,
            m <= preds@.len(),
            m <= golds@.len(),
            (sup_rows as int, sup_ok as int, all_ok as int) == spec_score(preds@, golds@, inv, i as int),
        decreases m - i,
    {
        proof {
            lemma_score_bounds(preds@, golds@, inv, i as int);
        }
        let ok = match &preds[i] {
            Some(p) => str_is(p.as_str(), golds[i]),
            None => false,
        };
        if ok {
            all_ok = all_ok + 1;
        }
        if inv.supports(golds[i]) {
            sup_rows = sup_rows + 1;
            if ok {
                sup_ok = sup_ok + 1;
            }
        }
        i = i + 1;
    }
    (sup_rows, sup_ok, all_ok)
}

/// The rows to run once before timing a detector that loads language
/// models lazily: the first row of each distinct gold code the tool can
/// express, in row order.
pub open spec fn spec_warmup_rows(golds: Seq<&str>, inv: Inventory) -> Seq<usize>
    decreases golds.len(),
{
    if golds.len() == 0 {
        Seq::empty()
    } else {
        let i = golds.len() - 1;
        let prev = spec_warmup_rows(golds.drop_last(), inv);
        if inv.spec_supports(golds[i]@) && !(exists|j: int| 0 <= j < i && (#[trigger] golds[j])@ == golds[i]@) {
            prev.push(i as usize)
        } else {
            prev
        }
    }
}

/// Indices of the warm-up rows: the first row of each distinct gold code
/// that the inventory holds.
pub fn warmup_rows(golds: &[&str], inv: Inventory) -> (r: Vec<usize>)
    ensures
        r@ == spec_warmup_rows(golds@, inv),
{
    let mut out: Vec<usize> = Vec::new();
    let mut i: usize = 0;
    while i < golds.len()
        invariant
            i <= golds@.len(),
            out@ == spec_warmup_rows(golds@.take(i as int), inv),
        decreases golds@.len() - i,
    {
        let mut seen = false;
        let mut j: usize = 0;
        while j < i
            invariant
                j <= i,
                i < golds@.len(),
                seen <==> exists|q: int| 0 <= q < j && (#[trigger] golds@[q])@ == golds@[i as int]@,
            decreases i - j,
        {
            if str_is(golds[j], golds[i]) {
                seen = true;
            }
            j = j + 1;
        }
        let ghost pre = golds@.take(i + 1);
        proof {
            assert(pre.drop_last() == golds@.take(i as int));
            assert(pre[i as int] == golds@[i as int]);
            assert((exists|q: int| 0 <= q < i && (#[trigger] pre[q])@ == pre[i as int]@) <==> seen) by {
                if seen {
                    let q = choose|q: int| 0 <= q < i && (#[trigger] golds@[q])@ == golds@[i as int]@;
                    assert(pre[q] == golds@[q]);
                }
                if exists|q: int| 0 <= q < i && (#[trigger] pre[q])@ == pre[i as int]@ {
                    let q = choose|q: int| 0 <= q < i && (#[trigger] pre[q])@ == pre[i as int]@;
                    assert(pre[q] == golds@[q]);
                }
            }
        }
        if !seen && inv.supports(golds[i]) {
            out.push(i);
        }
        i = i + 1;
    }
    proof {
        assert(golds@.take(golds@.len() as int) == golds@);
    }
    out
}

/// Texts kept for one language: its texts shuffled, then the first
/// `per_lang` of them (all of them when `per_lang` is 0 or exceeds them).
pub open spec fn kept(shuffled: Seq<String>, per_lang: nat) -> Seq<String> {
    if per_lang == 0 || per_lang > shuffled.len() {
        shuffled
    } else {
        shuffled.take(per_lang as int)
    }
}

/// The balanced sample of the first `k` languages of [`Lang::ALL`], with
/// the generator state after it: each language's texts shuffled in turn
/// (one shared generator) and cut to `per_lang`, labeled, in language order.
pub open spec fn sample_langs(by_lang: Seq<Seq<String>>, per_lang: nat, rng: u64, k: nat) -> (
    Seq<(Lang, String)>,
    u64,
)
    decreases k,
{
    if k == 0 {
        (Seq::empty(), rng)
    } else {
        let prev = sample_langs(by_lang, per_lang, rng, (k - 1) as nat);
        let lang = Lang::ALL@[k - 1];
        let sh = spec_shuffle(by_lang[k - 1], prev.1);
        (prev.0 + kept(sh.0, per_lang).map_values(|t: String| (lang, t)), sh.1)
    }
}

/// The deterministic, per-language balanced sample of a seed: every
/// language's sample in inventory order, then all rows shuffled together.
pub open spec fn spec_sample_rows(by_lang: Seq<Seq<String>>, per_lang: nat, seed: u32) -> Seq<
    (Lang, String),
> {
    let langs = sample_langs(by_lang, per_lang, spec_simple_rng(seed), NUM_LANGS as nat);
    spec_shuffle(langs.0, langs.1).0
}

/// Sample eval rows deterministically: `by_lang[k]` holds the texts of
/// `Lang::ALL[k]`; each language keeps `per_lang` shuffled texts (all of
/// them for 0), and the labeled rows are shuffled together. The same seed
/// always gives the same sample.
pub fn sample_rows(by_lang: &Vec<Vec<String>>, per_lang: usize, seed: u32) -> (r: Vec<(Lang, String)>)
    requires
        by_lang@.len() == NUM_LANGS,
    ensures
        r@ == spec_sample_rows(by_lang@.map_values(|v: Vec<String>| v@), per_lang as nat, seed),
{
    let ghost views = by_lang@.map_values(|v: Vec<String>| v@);
    let mut rng = simple_rng(seed);
    let mut rows: Vec<(Lang, String)> = Vec::new();
    let mut k: usize = 0;
    while k < NUM_LANGS
        invariant
            k <= NUM_LANGS,
            by_lang@.len() == NUM_LANGS,
            views == by_lang@.map_values(|v: Vec<String>| v@),
            (rows@, rng) == sample_langs(views, per_lang as nat, spec_simple_rng(seed), k as nat),
        decreases NUM_LANGS - k,
    {
        let source = &by_lang[k];
        let mut texts: Vec<String> = Vec::new();
        let mut t: usize = 0;
        while t < source.len()
            invariant
                t <= source@.len(),
                texts@ == source@.take(t as int),
            decreases source@.len() - t,
        {
            texts.push(source[t].clone());
            proof {
                assert(source@.take(t + 1) == source@.take(t as int).push(source@[t as int]));
            }
            t = t + 1;
        }
        proof {
            assert(source@.take(source@.len() as int) == source@);
            assert(views[k as int] == source@);
        }
        let ghost before = rows@;
        shuffle(texts.as_mut_slice(), &mut rng);
        let take = if per_lang == 0 || per_lang > texts.len() {
            texts.len()
        } else {
            per_lang
        };
        let lang = Lang::ALL[k];
        let ghost added = kept(texts@, per_lang as nat).map_values(|t: String| (lang, t));
        let mut q: usize = 0;
        while q < take
            invariant
                q <= take,
                take <= texts@.len(),
                take == kept(texts@, per_lang as nat).len(),
                added == kept(texts@, per_lang as nat).map_values(|t: String| (lang, t)),
                rows@ == before + added.take(q as int),
            decreases take - q,
        {
            rows.push((lang, texts[q].clone()));
            proof {
                assert(kept(texts@, per_lang as nat)[q as int] == texts@[q as int]);
                assert(added.take(q + 1) == added.take(q as int).push(added[q as int]));
            }
            q = q + 1;
        }
        proof {
            assert(added.take(take as int) == added);
        }
        k = k + 1;
    }
    shuffle(rows.as_mut_slice(), &mut rng);
    rows
}

/// How many rows carry the label `lang`.
pub open spec fn count_label(rows: Seq<(Lang, String)>, lang: Lang) -> nat
    decreases rows.len(),
{
    if rows.len() == 0 {
        0
    } else {
        count_label(rows.drop_last(), lang) + if rows.last().0 == lang {
            1nat
        } else {
            0nat
        }
    }
}

proof fn lemma_count_label_concat(a: Seq<(Lang, String)>, b: Seq<(Lang, String)>, lang: Lang)
    ensures
        count_label(a + b, lang) == count_label(a, lang) + count_label(b, lang),
    decreases b.len(),
{
    if b.len() == 0 {
        assert(a + b == a);
    } else {
        lemma_count_label_concat(a, b.drop_last(), lang);
        assert((a + b).drop_last() == a + b.drop_last());
    }
}

proof fn lemma_count_label_uniform(ts: Seq<String>, label: Lang, lang: Lang)
    ensures
        count_label(ts.map_values(|t: String| (label, t)), lang) == if label == lang {
            ts.len()
        } else {
            0
        },
    decreases ts.len(),
{
    if ts.len() > 0 {
        lemma_count_label_uniform(ts.drop_last(), label, lang);
        assert(ts.map_values(|t: String| (label, t)).drop_last() == ts.drop_last().map_values(
            |t: String| (label, t),
        ));
    }
}

proof fn lemma_count_label_update(s: Seq<(Lang, String)>, i: int, v: (Lang, String), lang: Lang)
    requires
        0 <= i < s.len(),
    ensures
        count_label(s.update(i, v), lang) + (if s[i].0 == lang {
            1int
        } else {
            0int
        }) == count_label(s, lang) + (if v.0 == lang {
            1int
        } else {
            0int
        }),
    decreases s.len(),
{
    if i < s.len() - 1 {
        lemma_count_label_update(s.drop_last(), i, v, lang);
        assert(s.update(i, v).drop_last() == s.drop_last().update(i, v));
    } else {
        assert(s.update(i, v).drop_last() == s.drop_last());
    }
}

proof fn lemma_shuffle_from_keeps_labels(s: Seq<(Lang, String)>, rng: u64, i: nat, lang: Lang)
    ensures
        count_label(shuffle_from(s, rng, i).0, lang) == count_label(s, lang),
    decreases i,
{
    if i != 0 && i < s.len() {
        let r = xorshift_step(rng);
        let j = (r as int) % (i as int + 1);
        let s1 = s.update(i as int, s[j]);
        lemma_count_label_update(s, i as int, s[j], lang);
        lemma_count_label_update(s1, j, s[i as int], lang);
        assert(s1[j] == s[j] || j == i);
        lemma_shuffle_from_keeps_labels(s1.update(j, s[i as int]), r, (i - 1) as nat, lang);
    }
}

/// Rows per label in the per-language stage: the kept texts of every
/// language before `k`.
proof fn lemma_sample_langs_counts(
    by_lang: Seq<Seq<String>>,
    per_lang: nat,
    rng: u64,
    k: nat,
    j: int,
)
    requires
        k <= NUM_LANGS,
        by_lang.len() == NUM_LANGS,
        0 <= j < NUM_LANGS,
    ensures
        count_label(sample_langs(by_lang, per_lang, rng, k).0, Lang::ALL@[j]) == if j < k {
            kept_count(by_lang[j].len(), per_lang)
        } else {
            0
        },
    decreases k,
{
    lemma_all_is_indexed();
    if k > 0 {
        let prev = sample_langs(by_lang, per_lang, rng, (k - 1) as nat);
        lemma_sample_langs_counts(by_lang, per_lang, rng, (k - 1) as nat, j);
        let lang = Lang::ALL@[k - 1];
        let sh = spec_shuffle(by_lang[k - 1], prev.1);
        lemma_shuffle_is_permutation(by_lang[k - 1], prev.1);
        let ks = kept(sh.0, per_lang);
        lemma_count_label_concat(prev.0, ks.map_values(|t: String| (lang, t)), Lang::ALL@[j]);
        lemma_count_label_uniform(ks, lang, Lang::ALL@[j]);
        assert(lang == Lang::ALL@[j] <==> j == k - 1) by {
            assert(Lang::ALL@[j].spec_index() == j);
            assert(Lang::ALL@[k - 1].spec_index() == k - 1);
        }
    }
}

/// Texts one language keeps out of `n`: `per_lang`, or all `n` when
/// `per_lang` is 0 or more than `n`.
pub open spec fn kept_count(n: nat, per_lang: nat) -> nat {
    if per_lang == 0 || per_lang > n {
        n
    } else {
        per_lang
    }
}

/// The sample is balanced: every language contributes exactly its kept
/// texts, `per_lang` of them (all it has when fewer, or when `per_lang` is
/// 0), whatever the seed.
pub proof fn lemma_sample_is_balanced(by_lang: Seq<Seq<String>>, per_lang: nat, seed: u32, k: int)
    requires
        by_lang.len() == NUM_LANGS,
        0 <= k < NUM_LANGS,
    ensures
        count_label(spec_sample_rows(by_lang, per_lang, seed), Lang::ALL@[k]) == kept_count(
            by_lang[k].len(),
            per_lang,
        ),
{
    let langs = sample_langs(by_lang, per_lang, spec_simple_rng(seed), NUM_LANGS as nat);
    lemma_sample_langs_counts(by_lang, per_lang, spec_simple_rng(seed), NUM_LANGS as nat, k);
    if langs.0.len() > 1 {
        lemma_shuffle_from_keeps_labels(
            langs.0,
            langs.1,
            (langs.0.len() - 1) as nat,
            Lang::ALL@[k],
        );
    }
}

/// Sum of the `correct` counts of a run of tallies.
pub open spec fn sum_correct(s: Seq<(usize, usize)>) -> int
    decreases s.len(),
{
    if s.len() == 0 {
        0
    } else {
        sum_correct(s.drop_last()) + s.last().0
    }
}

/// Sum of the `total` counts of a run of tallies.
pub open spec fn sum_total(s: Seq<(usize, usize)>) -> int
    decreases s.len(),
{
    if s.len() == 0 {
        0
    } else {
        sum_total(s.drop_last()) + s.last().1
    }
}

/// Replacing one entry changes each sum by the difference.
proof fn lemma_sums_update(s: Seq<(usize, usize)>, k: int, v: (usize, usize))
    requires
        0 <= k < s.len(),
    ensures
        sum_correct(s.update(k, v)) == sum_correct(s) - s[k].0 + v.0,
        sum_total(s.update(k, v)) == sum_total(s) - s[k].1 + v.1,
    decreases s.len(),
{
    let u = s.update(k, v);
    if k == s.len() - 1 {
        assert(u.drop_last() == s.drop_last());
    } else {
        lemma_sums_update(s.drop_last(), k, v);
        assert(u.drop_last() == s.drop_last().update(k, v));
    }
}

/// A run of empty tallies sums to zero.
proof fn lemma_sums_zero(s: Seq<(usize, usize)>)
    requires
        forall|k: int| 0 <= k < s.len() ==> #[trigger] s[k] == (0usize, 0usize),
    ensures
        sum_correct(s) == 0,
        sum_total(s) == 0,
    decreases s.len(),
{
    if s.len() > 0 {
        lemma_sums_zero(s.drop_last());
    }
}

/// Accumulated `(correct, total)` counts per gold language plus the overall
/// tally.
pub struct Tally {
    /// `(correct, total)` over every record.
    pub overall: (usize, usize),
    /// `(correct, total)` per gold language, indexed by [`Lang::index`].
    pub per_lang: Vec<(usize, usize)>,
}

impl Tally {
    /// One entry per language, the overall tally the sum of the entries,
    /// and no entry with more correct records than records.
    pub open spec fn wf(&self) -> bool {
        &&& self.per_lang@.len() == NUM_LANGS
        &&& self.overall.0 == sum_correct(self.per_lang@)
        &&& self.overall.1 == sum_total(self.per_lang@)
        &&& forall|k: int| 0 <= k < NUM_LANGS ==> #[trigger] self.per_lang@[k].0 <= self.per_lang@[k].1
    }

    /// The empty tally.
    pub fn new() -> (r: Tally)
        ensures
            r.wf(),
            r.overall == (0usize, 0usize),
            forall|k: int| 0 <= k < NUM_LANGS ==> #[trigger] r.per_lang@[k] == (0usize, 0usize),
    {
        let mut per_lang: Vec<(usize, usize)> = Vec::new();
        let mut k: usize = 0;
        while k < NUM_LANGS
            invariant
                k <= NUM_LANGS,
                per_lang@.len() == k,
                forall|q: int| 0 <= q < k ==> #[trigger] per_lang@[q] == (0usize, 0usize),
            decreases NUM_LANGS - k,
        {
            per_lang.push((0, 0));
            k = k + 1;
        }
        proof {
            lemma_sums_zero(per_lang@);
        }
        Tally { overall: (0, 0), per_lang }
    }

    /// Count one record of gold language `gold`, correct or not. A
    /// well-formed tally stays well-formed: the overall counts remain the
    /// sums of the per-language counts.
    pub fn record(&mut self, gold: Lang, correct: bool)
        requires
            old(self).per_lang@.len() == NUM_LANGS,
            old(self).overall.0 < usize::MAX,
            old(self).overall.1 < usize::MAX,
            old(self).per_lang@[gold.spec_index() as int].0 < usize::MAX,
            old(self).per_lang@[gold.spec_index() as int].1 < usize::MAX,
        ensures
            final(self).overall == (
                (old(self).overall.0 + if correct { 1int } else { 0int }) as usize,
                (old(self).overall.1 + 1) as usize,
            ),
            final(self).per_lang@ == old(self).per_lang@.update(
                gold.spec_index() as int,
                (
                    (old(self).per_lang@[gold.spec_index() as int].0 + if correct {
                        1int
                    } else {
                        0int
                    }) as usize,
                    (old(self).per_lang@[gold.spec_index() as int].1 + 1) as usize,
                ),
            ),
            old(self).wf() ==> final(self).wf(),
    {
        let inc: usize = if correct {
            1
        } else {
            0
        };
        self.overall = (self.overall.0 + inc, self.overall.1 + 1);
        let k = gold.index();
        let (c, t) = self.per_lang[k];
        let ghost before = self.per_lang@;
        let entry: (usize, usize) = (c + inc, t + 1);
        self.per_lang.set(k, entry);
        proof {
            lemma_sums_update(before, k as int, entry);
        }
    }
}

impl Default for Tally {
    fn default() -> (r: Tally)
        ensures
            r.wf(),
            r.overall == (0usize, 0usize),
            forall|k: int| 0 <= k < NUM_LANGS ==> #[trigger] r.per_lang@[k] == (0usize, 0usize),
    {
        Tally::new()
    }
}

/// Counts of `(gold, predicted)` pairs over the languages with an answer.
pub struct Confusion {
    /// `counts[gold.index() * NUM_LANGS + predicted.index()]`.
    pub counts: Vec<usize>,
}

impl Default for Confusion {
    fn default() -> (r: Confusion)
        ensures
            r.counts@.len() == NUM_LANGS * NUM_LANGS,
            forall|k: int| 0 <= k < NUM_LANGS * NUM_LANGS ==> #[trigger] r.counts@[k] == 0,
    {
        Confusion::new()
    }
}

/// Sum of `m[row * NUM_LANGS + c]` over the columns `c < n`.
pub open spec fn row_sum(m: Seq<usize>, row: int, n: int) -> int
    decreases n,
{
    if n <= 0 {
        0
    } else {
        row_sum(m, row, n - 1) + m[row * NUM_LANGS + n - 1]
    }
}

/// Sum of `m[r * NUM_LANGS + col]` over the rows `r < n`.
pub open spec fn column_sum(m: Seq<usize>, col: int, n: int) -> int
    decreases n,
{
    if n <= 0 {
        0
    } else {
        column_sum(m, col, n - 1) + m[(n - 1) * NUM_LANGS + col]
    }
}

/// Sum of the diagonal entries `m[k * NUM_LANGS + k]` over the rows `k < n`.
pub open spec fn diagonal_sum(m: Seq<usize>, n: int) -> int
    decreases n,
{
    if n <= 0 {
        0
    } else {
        diagonal_sum(m, n - 1) + m[(n - 1) * NUM_LANGS + (n - 1)]
    }
}

/// The cell of the matrix that counts `gold` texts detected as `predicted`.
pub open spec fn cell(gold: Lang, predicted: Lang) -> int {
    gold.spec_index() * NUM_LANGS + predicted.spec_index()
}

/// A `(gold, predicted, count)` entry that names an off-diagonal cell of
/// `m` counted at least once, with that cell's count.
pub open spec fn is_confusion(m: Seq<usize>, e: (Lang, Lang, usize)) -> bool {
    &&& e.0 != e.1
    &&& e.2 > 0
    &&& e.2 == m[cell(e.0, e.1)]
}

/// `a` ranks before `b`: counted more often, or as often and in an earlier
/// cell (row by row, gold language first).
pub open spec fn ranks_before(a: (Lang, Lang, usize), b: (Lang, Lang, usize)) -> bool {
    a.2 > b.2 || (a.2 == b.2 && cell(a.0, a.1) < cell(b.0, b.1))
}

impl Confusion {
    /// The empty matrix.
    pub fn new() -> (r: Confusion)
        ensures
            r.counts@.len() == NUM_LANGS * NUM_LANGS,
            forall|k: int| 0 <= k < NUM_LANGS * NUM_LANGS ==> #[trigger] r.counts@[k] == 0,
    {
        let mut counts: Vec<usize> = Vec::new();
        let mut k: usize = 0;
        while k < NUM_LANGS * NUM_LANGS
            invariant
                k <= NUM_LANGS * NUM_LANGS,
                counts@.len() == k,
                forall|q: int| 0 <= q < k ==> #[trigger] counts@[q] == 0,
            decreases NUM_LANGS * NUM_LANGS - k,
        {
            counts.push(0);
            k = k + 1;
        }
        Confusion { counts }
    }

    /// Count one detection of `predicted` for a text of gold language `gold`.
    pub fn record(&mut self, gold: Lang, predicted: Lang)
        requires
            old(self).counts@.len() == NUM_LANGS * NUM_LANGS,
            old(self).counts@[gold.spec_index() * NUM_LANGS + predicted.spec_index()] < usize::MAX,
        ensures
            final(self).counts@ == old(self).counts@.update(
                gold.spec_index() * NUM_LANGS + predicted.spec_index(),
                (old(self).counts@[gold.spec_index() * NUM_LANGS + predicted.spec_index()]
                    + 1) as usize,
            ),
    {
        let k = gold.index() * NUM_LANGS + predicted.index();
        let v = self.counts[k];
        self.counts.set(k, v + 1);
    }

    /// How often `gold` texts were detected as `predicted`.
    pub fn count(&self, gold: Lang, predicted: Lang) -> (r: usize)
        requires
            self.counts@.len() == NUM_LANGS * NUM_LANGS,
        ensures
            r == self.counts@[gold.spec_index() * NUM_LANGS + predicted.spec_index()],
    {
        self.counts[gold.index() * NUM_LANGS + predicted.index()]
    }

    /// Sum of the counts in row `row`.
    fn row_total(&self, row: usize) -> (r: usize)
        requires
            self.counts@.len() == NUM_LANGS * NUM_LANGS,
            row < NUM_LANGS,
            row_sum(self.counts@, row as int, NUM_LANGS as int) <= usize::MAX,
        ensures
            r as int == row_sum(self.counts@, row as int, NUM_LANGS as int),
    {
        let mut total: u128 = 0;
        let mut c: usize = 0;
        while c < NUM_LANGS
            invariant
                c <= NUM_LANGS,
                row < NUM_LANGS,
                self.counts@.len() == NUM_LANGS * NUM_LANGS,
                total as int == row_sum(self.counts@, row as int, c as int),
                total <= c * 0x1_0000_0000_0000_0000,
            decreases NUM_LANGS - c,
        {
            let v = self.counts[row * NUM_LANGS + c];
            total = total + v as u128;
            c = c + 1;
        }
        total as usize
    }

    /// Texts of gold language `gold` that got an answer.
    pub fn gold_total(&self, gold: Lang) -> (r: usize)
        requires
            self.counts@.len() == NUM_LANGS * NUM_LANGS,
            row_sum(self.counts@, gold.spec_index() as int, NUM_LANGS as int) <= usize::MAX,
        ensures
            r as int == row_sum(self.counts@, gold.spec_index() as int, NUM_LANGS as int),
    {
        self.row_total(gold.index())
    }

    /// The text-level tally over `rows` eval rows. Per gold language: the
    /// texts detected as their own language, against the texts of that
    /// language that got an answer. Overall: all texts detected right,
    /// against all `rows` (a row without an answer counts as wrong).
    pub fn text_tally(&self, rows: usize) -> (r: Tally)
        requires
            self.counts@.len() == NUM_LANGS * NUM_LANGS,
            forall|k: int|
                0 <= k < NUM_LANGS ==> #[trigger] row_sum(self.counts@, k, NUM_LANGS as int)
                    <= usize::MAX,
            diagonal_sum(self.counts@, NUM_LANGS as int) <= usize::MAX,
        ensures
            r.per_lang@.len() == NUM_LANGS,
            forall|k: int|
                0 <= k < NUM_LANGS ==> #[trigger] r.per_lang@[k] == (
                    self.counts@[k * NUM_LANGS + k],
                    row_sum(self.counts@, k, NUM_LANGS as int) as usize,
                ),
            r.overall == (diagonal_sum(self.counts@, NUM_LANGS as int) as usize, rows),
            r.overall.0 == sum_correct(r.per_lang@),
    {
        let mut per_lang: Vec<(usize, usize)> = Vec::new();
        let mut correct: u128 = 0;
        let mut k: usize = 0;
        while k < NUM_LANGS
            invariant
                k <= NUM_LANGS,
                self.counts@.len() == NUM_LANGS * NUM_LANGS,
                forall|q: int|
                    0 <= q < NUM_LANGS ==> #[trigger] row_sum(self.counts@, q, NUM_LANGS as int)
                        <= usize::MAX,
                per_lang@.len() == k,
                forall|q: int|
                    0 <= q < k ==> #[trigger] per_lang@[q] == (
                        self.counts@[q * NUM_LANGS + q],
                        row_sum(self.counts@, q, NUM_LANGS as int) as usize,
                    ),
                correct as int == diagonal_sum(self.counts@, k as int),
                correct as int == sum_correct(per_lang@),
                correct <= k * 0x1_0000_0000_0000_0000,
            decreases NUM_LANGS - k,
        {
            let v = self.counts[k * NUM_LANGS + k];
            let t = self.row_total(k);
            let ghost before = per_lang@;
            per_lang.push((v, t));
            proof {
                assert(per_lang@.drop_last() == before);
            }
            correct = correct + v as u128;
            k = k + 1;
        }
        Tally { overall: (correct as usize, rows), per_lang }
    }

    /// Texts detected as `predicted`.
    pub fn pred_total(&self, predicted: Lang) -> (r: usize)
        requires
            self.counts@.len() == NUM_LANGS * NUM_LANGS,
            column_sum(self.counts@, predicted.spec_index() as int, NUM_LANGS as int) <= usize::MAX,
        ensures
            r as int == column_sum(self.counts@, predicted.spec_index() as int, NUM_LANGS as int),
    {
        let col = predicted.index();
        let mut total: u128 = 0;
        let mut g: usize = 0;
        while g < NUM_LANGS
            invariant
                g <= NUM_LANGS,
                col < NUM_LANGS,
                self.counts@.len() == NUM_LANGS * NUM_LANGS,
                total as int == column_sum(self.counts@, col as int, g as int),
                total <= g * 0x1_0000_0000_0000_0000,
            decreases NUM_LANGS - g,
        {
            let v = self.counts[g * NUM_LANGS + col];
            total = total + v as u128;
            g = g + 1;
        }
        total as usize
    }
    /// Every confusion between two different languages as `(gold,
    /// predicted, count)`, most frequent first; equal counts come row by
    /// row, gold language first.
    pub fn ranked_confusions(&self) -> (r: Vec<(Lang, Lang, usize)>)
        requires
            self.counts@.len() == NUM_LANGS * NUM_LANGS,
        ensures
            forall|i: int| 0 <= i < r@.len() ==> is_confusion(self.counts@, #[trigger] r@[i]),
            forall|g: Lang, p: Lang|
                g != p && self.counts@[#[trigger] cell(g, p)] > 0 ==> exists|i: int|
                    0 <= i < r@.len() && (#[trigger] r@[i]).0 == g && r@[i].1 == p,
            forall|i: int, j: int|
                0 <= i < j < r@.len() ==> ranks_before(#[trigger] r@[i], #[trigger] r@[j]),
    {
        proof {
            lemma_all_is_indexed();
        }
        let mut out: Vec<(Lang, Lang, usize)> = Vec::new();
        let mut k: usize = 0;
        while k < NUM_LANGS * NUM_LANGS
            invariant
                k <= NUM_LANGS * NUM_LANGS,
                self.counts@.len() == NUM_LANGS * NUM_LANGS,
                forall|q: int| 0 <= q < NUM_LANGS ==> (#[trigger] Lang::ALL@[q]).spec_index() == q,
                forall|i: int|
                    0 <= i < out@.len() ==> is_confusion(self.counts@, #[trigger] out@[i]) && cell(
                        out@[i].0,
                        out@[i].1,
                    ) < k,
                forall|g: Lang, p: Lang|
                    g != p && self.counts@[#[trigger] cell(g, p)] > 0 && cell(g, p) < k
                        ==> exists|i: int|
                        0 <= i < out@.len() && (#[trigger] out@[i]).0 == g && out@[i].1 == p,
                forall|i: int, j: int|
                    0 <= i < j < out@.len() ==> ranks_before(#[trigger] out@[i], #[trigger] out@[j]),
            decreases NUM_LANGS * NUM_LANGS - k,
        {
            let g = k / NUM_LANGS;
            let p = k % NUM_LANGS;
            let count = self.counts[k];
            if g != p && count > 0 {
                let entry = (Lang::ALL[g], Lang::ALL[p], count);
                assert(cell(entry.0, entry.1) == k);
                let mut j: usize = 0;
                while j < out.len() && out[j].2 >= count
                    invariant
                        j <= out@.len(),
                        forall|i: int| 0 <= i < j ==> (#[trigger] out@[i]).2 >= count,
                    decreases out@.len() - j,
                {
                    j = j + 1;
                }
                let ghost before = out@;
                out.insert(j, entry);
                proof {
                    before.insert_ensures(j as int, entry);
                    let after = out@;
                    assert forall|i: int| 0 <= i < after.len() implies is_confusion(
                        self.counts@,
                        #[trigger] after[i],
                    ) && cell(after[i].0, after[i].1) < k + 1 by {
                        if i > j {
                            assert(after[(i - 1) + 1] == before[i - 1]);
                        }
                    }
                    assert forall|a: Lang, b: Lang|
                        a != b && self.counts@[#[trigger] cell(a, b)] > 0 && cell(a, b) < k + 1
                            implies exists|i: int|
                        0 <= i < after.len() && (#[trigger] after[i]).0 == a && after[i].1
                            == b by {
                        if cell(a, b) == k {
                            assert(a.spec_index() == g && b.spec_index() == p);
                            assert(Lang::ALL@[a.spec_index() as int] == a);
                            assert(Lang::ALL@[b.spec_index() as int] == b);
                            assert(after[j as int] == entry);
                        } else {
                            let w = choose|i: int|
                                0 <= i < before.len() && (#[trigger] before[i]).0 == a && before[i].1
                                    == b;
                            if w < j {
                                assert(after[w] == before[w]);
                            } else {
                                assert(after[w + 1] == before[w]);
                            }
                        }
                    }
                    assert forall|x: int, y: int|
                        0 <= x < y < after.len() implies ranks_before(
                        #[trigger] after[x],
                        #[trigger] after[y],
                    ) by {
                        if y < j {
                        } else if y == j {
                            assert(before[x].2 >= count);
                        } else if x < j {
                            assert(after[(y - 1) + 1] == before[y - 1]);
                        } else if x == j {
                            assert(after[(y - 1) + 1] == before[y - 1]);
                            assert(before[j as int].2 < count);
                            if y - 1 > j {
                                assert(ranks_before(before[j as int], before[y - 1]));
                            }
                        } else {
                            assert(after[(y - 1) + 1] == before[y - 1]);
                            assert(after[(x - 1) + 1] == before[x - 1]);
                        }
                    }
                }
            }
            k = k + 1;
        }
        out
    }
}

} // verus!
