//! Sentence splitting for document sweeps.
//!
//! - a boundary sits after a run of terminators (`. ! ? …`, so `?!`,
//!   `...`, `?..` are one run) plus any closing quotes/brackets that
//!   follow (`.»`, `!)`), when the run ends the line or meets whitespace;
//! - a dot after a single letter is an initial (`Л. Н. Толстой`) — no
//!   boundary (a `?`, `!` or `…` after a single letter still ends the
//!   sentence);
//! - a dot between digits is a decimal (`3.5`) — no boundary;
//! - a line with no terminator is one sentence.
//!
//! [`glue_short`] merges attribution tails back onto the sentence they
//! belong to; [`sweep_sentences`] runs both over every paragraph line of a
//! markdown document.
use vstd::prelude::*;

use crate::text::{
    has_letter, is_alphabetic, is_numeric, is_white_space, is_whitespace, str_chars, string_push,
    unicode_alphabetic, unicode_numeric,
};

verus! {

/// Sentence terminators: `.`, `!`, `?`, `…`.
pub open spec fn is_terminator(c: char) -> bool {
    c == '.' || c == '!' || c == '?' || c == '…'
}

/// Quotes/brackets glued to a terminator on its right: `» " ” ' ) ]`.
pub open spec fn is_closer(c: char) -> bool {
    c == '»' || c == '"' || c == '”' || c == '\'' || c == ')' || c == ']'
}

fn is_terminator_char(c: char) -> (r: bool)
    ensures
        r == is_terminator(c),
{
    c == '.' || c == '!' || c == '?' || c == '…'
}

fn is_closer_char(c: char) -> (r: bool)
    ensures
        r == is_closer(c),
{
    c == '»' || c == '"' || c == '”' || c == '\'' || c == ')' || c == ']'
}

/// End of the maximal run of terminators starting at `j`.
pub open spec fn terminator_run_end(c: Seq<char>, j: int) -> int
    decreases c.len() - j,
{
    if 0 <= j < c.len() && is_terminator(c[j]) {
        terminator_run_end(c, j + 1)
    } else {
        j
    }
}

/// End of the maximal run of closers starting at `j`.
pub open spec fn closer_run_end(c: Seq<char>, j: int) -> int
    decreases c.len() - j,
{
    if 0 <= j < c.len() && is_closer(c[j]) {
        closer_run_end(c, j + 1)
    } else {
        j
    }
}

/// End of the terminator run starting at `i` plus the closers glued to it.
pub open spec fn run_end(c: Seq<char>, i: int) -> int {
    closer_run_end(c, terminator_run_end(c, i))
}

/// A letter: an `Alphabetic` char that is no whitespace (whitespace never
/// is one).
pub open spec fn is_letter(ch: char) -> bool {
    !is_white_space(ch) && unicode_alphabetic(ch)
}

/// A numeral: a `Numeric` char that is no whitespace (whitespace never is
/// one).
pub open spec fn is_numeral(ch: char) -> bool {
    !is_white_space(ch) && unicode_numeric(ch)
}

fn letter(ch: char) -> (r: bool)
    ensures
        r == is_letter(ch),
{
    !is_whitespace(ch) && is_alphabetic(ch)
}

fn numeral(ch: char) -> (r: bool)
    ensures
        r == is_numeral(ch),
{
    !is_whitespace(ch) && is_numeric(ch)
}

/// The run at `dot` opens with a dot that ends a single-letter initial: the
/// char before the dot is a letter that is not itself preceded by a letter.
/// Other terminators (`?`, `!`, `…`) never make an initial.
pub open spec fn is_initial_at(c: Seq<char>, dot: int) -> bool {
    &&& 0 <= dot < c.len()
    &&& c[dot] == '.'
    &&& dot >= 1
    &&& is_letter(c[dot - 1])
    &&& !(dot >= 2 && is_letter(c[dot - 2]))
}

/// The run at `run..j` sits between two digits (`3.5`).
pub open spec fn is_decimal_at(c: Seq<char>, run: int, j: int) -> bool {
    run >= 1 && is_numeral(c[run - 1]) && j < c.len() && is_numeral(c[j])
}

/// The run at `run..j` ends a sentence: it meets whitespace or the end of
/// the line, and is neither an initial nor a decimal point.
pub open spec fn is_boundary_at(c: Seq<char>, run: int, j: int) -> bool {
    (j >= c.len() || is_white_space(c[j])) && !is_initial_at(c, run) && !is_decimal_at(c, run, j)
}

/// Leading whitespace removed.
pub open spec fn trim_start(s: Seq<char>) -> Seq<char>
    decreases s.len(),
{
    if s.len() > 0 && is_white_space(s[0]) {
        trim_start(s.drop_first())
    } else {
        s
    }
}

/// Trailing whitespace removed.
pub open spec fn trim_end(s: Seq<char>) -> Seq<char>
    decreases s.len(),
{
    if s.len() > 0 && is_white_space(s.last()) {
        trim_end(s.drop_last())
    } else {
        s
    }
}

/// `str::trim`: leading and trailing `White_Space` removed.
pub open spec fn trim(s: Seq<char>) -> Seq<char> {
    trim_end(trim_start(s))
}

/// The trimmed segment as a piece, or nothing when it is blank.
pub open spec fn keep_piece(s: Seq<char>) -> Seq<Seq<char>> {
    if trim(s).len() == 0 {
        Seq::empty()
    } else {
        seq![trim(s)]
    }
}

pub proof fn lemma_run_end_bounds(c: Seq<char>, i: int)
    requires
        0 <= i <= c.len(),
    ensures
        i <= terminator_run_end(c, i) <= run_end(c, i) <= c.len(),
        i < c.len() && is_terminator(c[i]) ==> i < run_end(c, i),
{
    lemma_terminator_run_bounds(c, i);
    lemma_closer_run_bounds(c, terminator_run_end(c, i));
    if i < c.len() && is_terminator(c[i]) {
        lemma_terminator_run_bounds(c, i + 1);
    }
}

proof fn lemma_terminator_run_bounds(c: Seq<char>, j: int)
    requires
        0 <= j <= c.len(),
    ensures
        j <= terminator_run_end(c, j) <= c.len(),
    decreases c.len() - j,
{
    if j < c.len() && is_terminator(c[j]) {
        lemma_terminator_run_bounds(c, j + 1);
    }
}

proof fn lemma_closer_run_bounds(c: Seq<char>, j: int)
    requires
        0 <= j <= c.len(),
    ensures
        j <= closer_run_end(c, j) <= c.len(),
    decreases c.len() - j,
{
    if j < c.len() && is_closer(c[j]) {
        lemma_closer_run_bounds(c, j + 1);
    }
}

/// The pieces of `c` from scan position `i`, the current sentence having
/// started at `start`: scanning skips non-terminators; at a terminator run
/// the boundary rule decides whether the sentence ends after the run and
/// its closers.
pub open spec fn pieces_from(c: Seq<char>, i: int, start: int) -> Seq<Seq<char>>
    decreases c.len() - i,
{
    if i < 0 || i >= c.len() {
        keep_piece(c.subrange(start, c.len() as int))
    } else if !is_terminator(c[i]) {
        pieces_from(c, i + 1, start)
    } else {
        let j = run_end(c, i);
        proof {
            lemma_run_end_bounds(c, i);
        }
        if is_boundary_at(c, i, j) {
            keep_piece(c.subrange(start, j)) + pieces_from(c, j, j)
        } else {
            pieces_from(c, j, start)
        }
    }
}

/// The sentences of one line, trimmed, blank ones dropped.
pub open spec fn spec_split_line(c: Seq<char>) -> Seq<Seq<char>> {
    pieces_from(c, 0, 0)
}

/// Bounds of the trimmed segment `c[start..end]`.
pub(crate) fn trimmed_bounds(c: &[char], start: usize, end: usize) -> (r: (usize, usize))
    requires
        start <= end <= c@.len(),
    ensures
        start <= r.0 <= r.1 <= end,
        c@.subrange(r.0 as int, r.1 as int) == trim(c@.subrange(start as int, end as int)),
{
    let mut a = start;
    while a < end && is_whitespace(c[a])
        invariant
            start <= a <= end <= c@.len(),
            trim_start(c@.subrange(a as int, end as int)) == trim_start(
                c@.subrange(start as int, end as int),
            ),
        decreases end - a,
    {
        assert(c@.subrange(a as int, end as int).drop_first() == c@.subrange(a + 1, end as int));
        a = a + 1;
    }
    assert(trim_start(c@.subrange(a as int, end as int)) == c@.subrange(a as int, end as int));
    let mut b = end;
    while b > a && is_whitespace(c[b - 1])
        invariant
            start <= a <= b <= end <= c@.len(),
            trim_end(c@.subrange(a as int, b as int)) == trim_end(
                c@.subrange(a as int, end as int),
            ),
        decreases b - a,
    {
        assert(c@.subrange(a as int, b as int).drop_last() == c@.subrange(a as int, b - 1));
        b = b - 1;
    }
    assert(trim_end(c@.subrange(a as int, b as int)) == c@.subrange(a as int, b as int));
    (a, b)
}

/// Split one line into trimmed, non-empty sentence slices.
///
/// Splitting the caller's text into lines first stays the caller's policy;
/// this function is purely the within-line segmentation.
pub fn split_line(line: &str) -> (r: Vec<&str>)
    ensures
        r@.map_values(|s: &str| s@) == spec_split_line(line@),
{
    let chars = str_chars(line);
    let n = chars.len();
    let mut out: Vec<&str> = Vec::new();
    let mut start: usize = 0;
    let mut i: usize = 0;
    while i < n
        invariant
            n == line@.len(),
            chars@ == line@,
            start <= i <= n,
            out@.map_values(|s: &str| s@) + pieces_from(line@, i as int, start as int)
                == spec_split_line(line@),
        decreases n - i,
    {
        if !is_terminator_char(chars[i]) {
            i = i + 1;
            continue;
        }
        // consume the terminator run, then any closers glued to it
        let run = i;
        let mut j = i;
        while j < n && is_terminator_char(chars[j])
            invariant
                run <= j <= n,
                n == line@.len(),
                chars@ == line@,
                terminator_run_end(line@, j as int) == terminator_run_end(line@, run as int),
            decreases n - j,
        {
            j = j + 1;
        }
        let ghost t = j;
        while j < n && is_closer_char(chars[j])
            invariant
                run <= j <= n,
                n == line@.len(),
                chars@ == line@,
                terminator_run_end(line@, run as int) == t,
                closer_run_end(line@, j as int) == closer_run_end(line@, t as int),
            decreases n - j,
        {
            j = j + 1;
        }
        assert(j == run_end(line@, run as int));
        proof {
            lemma_run_end_bounds(line@, run as int);
        }
        let decimal = run >= 1 && numeral(chars[run - 1]) && j < n && numeral(chars[j]);
        let initial = chars[run] == '.' && run >= 1 && letter(chars[run - 1]) && !(run >= 2 && letter(
            chars[run - 2],
        ));
        let boundary = (j >= n || is_whitespace(chars[j])) && !initial && !decimal;
        assert(boundary == is_boundary_at(line@, run as int, j as int));
        if boundary {
            let (a, b) = trimmed_bounds(chars.as_slice(), start, j);
            let ghost before = out@.map_values(|s: &str| s@);
            if a < b {
                let piece = line.substring_char(a, b);
                out.push(piece);
                assert(out@.map_values(|s: &str| s@) == before.push(piece@));
            }
            proof {
                let kept = keep_piece(line@.subrange(start as int, j as int));
                if a < b {
                    assert(kept == seq![line@.subrange(a as int, b as int)]);
                } else {
                    assert(kept == Seq::<Seq<char>>::empty());
                }
                assert(out@.map_values(|s: &str| s@) == before + kept);
            }
            start = j;
        }
        i = j;
    }
    let (a, b) = trimmed_bounds(chars.as_slice(), start, n);
    let ghost before = out@.map_values(|s: &str| s@);
    if a < b {
        let piece = line.substring_char(a, b);
        out.push(piece);
        assert(out@.map_values(|s: &str| s@) == before.push(piece@));
    }
    proof {
        let kept = keep_piece(line@.subrange(start as int, n as int));
        if a < b {
            assert(kept == seq![line@.subrange(a as int, b as int)]);
        } else {
            assert(kept == Seq::<Seq<char>>::empty());
        }
        assert(out@.map_values(|s: &str| s@) == before + kept);
    }
    out
}

/// `p` is an attribution tail of the pieces glued so far: a short
/// (`< min_chars` chars) fragment opening with an em-dash right after a piece
/// that ends with a closing quote/bracket.
pub open spec fn is_attribution_tail(out: Seq<Seq<char>>, p: Seq<char>, min_chars: nat) -> bool {
    &&& p.len() > 0
    &&& p[0] == '—'
    &&& p.len() < min_chars
    &&& out.len() > 0
    &&& out.last().len() > 0
    &&& is_closer(out.last().last())
}

/// Pieces with every attribution tail appended (after one space) to the
/// piece before it; every other piece is kept as is, in order.
pub open spec fn spec_glue(ps: Seq<Seq<char>>, min_chars: nat) -> Seq<Seq<char>>
    decreases ps.len(),
{
    if ps.len() == 0 {
        Seq::empty()
    } else {
        let out = spec_glue(ps.drop_last(), min_chars);
        let p = ps.last();
        if is_attribution_tail(out, p, min_chars) {
            out.update(out.len() - 1, out.last() + seq![' '] + p)
        } else {
            out.push(p)
        }
    }
}

/// Glue attribution tails back onto their sentence: a sub-`min_chars`
/// fragment starting with an em-dash whose predecessor ends with a closing
/// quote/bracket («Да!» / "— сказал он.") is one linguistic unit and is
/// merged. Nothing else merges; sub-threshold fragments with nothing to
/// attach to are returned as-is.
pub fn glue_short(pieces: Vec<String>, min_chars: usize) -> (r: Vec<String>)
    ensures
        r@.map_values(|s: String| s@) == spec_glue(
            pieces@.map_values(|s: String| s@),
            min_chars as nat,
        ),
{
    let ghost ps = pieces@.map_values(|s: String| s@);
    let mut out: Vec<String> = Vec::new();
    let mut i: usize = 0;
    while i < pieces.len()
        invariant
            i <= pieces@.len(),
            ps == pieces@.map_values(|s: String| s@),
            out@.map_values(|s: String| s@) == spec_glue(ps.take(i as int), min_chars as nat),
        decreases pieces@.len() - i,
    {
        let ghost done = out@.map_values(|s: String| s@);
        proof {
            assert(ps.take(i + 1).drop_last() == ps.take(i as int));
            assert(ps.take(i + 1).last() == pieces@[i as int]@);
        }
        let piece = pieces[i].clone();
        let pc = str_chars(piece.as_str());
        let mut tail = pc.len() > 0 && pc[0] == '—' && pc.len() < min_chars && out.len() > 0;
        if tail {
            let k = out.len() - 1;
            let prev = str_chars(out[k].as_str());
            assert(prev@ == done.last());
            tail = prev.len() > 0 && is_closer_char(prev[prev.len() - 1]);
        }
        assert(tail == is_attribution_tail(done, piece@, min_chars as nat));
        if tail {
            let mut last = out.pop().unwrap();
            assert(out@.map_values(|s: String| s@) == done.drop_last());
            assert(last@ == done.last());
            string_push(&mut last, ' ');
            last.append(piece.as_str());
            let ghost glued = last@;
            assert(glued == done.last() + seq![' '] + piece@);
            out.push(last);
            assert(out@.map_values(|s: String| s@) =~= done.drop_last().push(glued));
            assert(done.drop_last().push(glued) =~= done.update(done.len() - 1, glued));
            assert(out@.map_values(|s: String| s@) == done.update(
                done.len() - 1,
                done.last() + seq![' '] + piece@,
            ));
        } else {
            out.push(piece);
            assert(out@.map_values(|s: String| s@) == done.push(piece@));
        }
        i = i + 1;
    }
    assert(ps.take(pieces@.len() as int) == ps);
    out
}

/// Gluing merges only em-dash fragments: pieces none of which opens with an
/// em-dash come back unchanged.
pub proof fn lemma_glue_without_dash_is_identity(ps: Seq<Seq<char>>, min_chars: nat)
    requires
        forall|k: int| 0 <= k < ps.len() ==> !(#[trigger] ps[k].len() > 0 && ps[k][0] == '—'),
    ensures
        spec_glue(ps, min_chars) == ps,
    decreases ps.len(),
{
    if ps.len() > 0 {
        assert forall|k: int| 0 <= k < ps.drop_last().len() implies !(
        #[trigger] ps.drop_last()[k].len() > 0 && ps.drop_last()[k][0] == '—') by {
            assert(ps.drop_last()[k] == ps[k]);
        }
        lemma_glue_without_dash_is_identity(ps.drop_last(), min_chars);
        assert(ps.last() == ps[ps.len() - 1]);
        assert(ps.drop_last().push(ps.last()) == ps);
    }
}

proof fn lemma_trim_start_shape(s: Seq<char>)
    ensures
        trim_start(s).len() == 0 || !is_white_space(trim_start(s)[0]),
        trim_start(s).len() <= s.len(),
        trim_start(s).len() > 0 ==> trim_start(s).last() == s.last(),
    decreases s.len(),
{
    if s.len() > 0 && is_white_space(s[0]) {
        lemma_trim_start_shape(s.drop_first());
    }
}

proof fn lemma_trim_end_shape(s: Seq<char>)
    ensures
        trim_end(s).len() == 0 || !is_white_space(trim_end(s).last()),
        trim_end(s).len() <= s.len(),
        trim_end(s).len() > 0 ==> trim_end(s)[0] == s[0],
    decreases s.len(),
{
    if s.len() > 0 && is_white_space(s.last()) {
        lemma_trim_end_shape(s.drop_last());
    }
}

/// A trimmed string is non-blank at both ends, and trimming it again changes
/// nothing.
pub proof fn lemma_trim_idempotent(s: Seq<char>)
    ensures
        trim(trim(s)) == trim(s),
        trim(s).len() > 0 ==> !is_white_space(trim(s)[0]) && !is_white_space(trim(s).last()),
{
    let a = trim_start(s);
    lemma_trim_start_shape(s);
    lemma_trim_end_shape(a);
    let t = trim_end(a);
    lemma_trim_end_shape(t);
}

/// Every piece from scan position `i` is non-empty and trimmed.
proof fn lemma_pieces_from_trimmed(c: Seq<char>, i: int, start: int)
    ensures
        forall|k: int|
            0 <= k < pieces_from(c, i, start).len() ==> #[trigger] pieces_from(c, i, start)[k].len()
                > 0 && trim(pieces_from(c, i, start)[k]) == pieces_from(c, i, start)[k],
    decreases c.len() - i,
{
    let ps = pieces_from(c, i, start);
    if i < 0 || i >= c.len() {
        lemma_trim_idempotent(c.subrange(start, c.len() as int));
        assert(ps == keep_piece(c.subrange(start, c.len() as int)));
    } else if !is_terminator(c[i]) {
        lemma_pieces_from_trimmed(c, i + 1, start);
        assert(ps == pieces_from(c, i + 1, start));
    } else {
        let j = run_end(c, i);
        lemma_run_end_bounds(c, i);
        lemma_pieces_from_trimmed(c, j, j);
        lemma_pieces_from_trimmed(c, j, start);
        lemma_trim_idempotent(c.subrange(start, j));
        if is_boundary_at(c, i, j) {
            let head = keep_piece(c.subrange(start, j));
            let tail = pieces_from(c, j, j);
            assert(ps == head + tail);
            assert(ps == head + tail);
            assert forall|k: int| 0 <= k < ps.len() implies #[trigger] ps[k].len() > 0 && trim(ps[k])
                == ps[k] by {
                if k >= head.len() {
                    assert(ps[k] == tail[k - head.len()]);
                } else {
                    assert(ps[k] == head[k]);
                }
            }
        } else {
            assert(ps == pieces_from(c, j, start));
        }
    }
}

/// The sentences of a line are non-empty and carry no leading or trailing
/// whitespace.
pub proof fn lemma_split_pieces_are_trimmed(c: Seq<char>)
    ensures
        forall|k: int|
            0 <= k < spec_split_line(c).len() ==> #[trigger] spec_split_line(c)[k].len() > 0 && trim(
                spec_split_line(c)[k],
            ) == spec_split_line(c)[k],
{
    lemma_pieces_from_trimmed(c, 0, 0);
}

/// Scanning over chars that are no terminator emits nothing.
proof fn lemma_scan_skips_to(c: Seq<char>, i: int, m: int)
    requires
        0 <= i <= m < c.len(),
        forall|k: int| 0 <= k < m ==> !is_terminator(#[trigger] c[k]),
    ensures
        pieces_from(c, i, 0) == pieces_from(c, m, 0),
    decreases m - i,
{
    if i < m {
        lemma_scan_skips_to(c, i + 1, m);
    }
}

/// A closing quote or bracket stays with the sentence it closes. When a line
/// opens with a sentence of non-terminators ending in two letters, then a
/// `.`, then one of `» " ” ' ) ]`, then whitespace, its first piece is that
/// sentence with the dot and the closer, whatever follows.
pub proof fn lemma_closer_ends_the_first_sentence(s: Seq<char>, q: char, ws: char, t: Seq<char>)
    requires
        s.len() >= 2,
        !is_white_space(s[0]),
        is_letter(s[s.len() - 1]),
        is_letter(s[s.len() - 2]),
        forall|k: int|
            0 <= k < s.len() ==> #[trigger] s[k] != '.' && s[k] != '!' && s[k] != '?' && s[k]
                != '…',
        q == '»' || q == '"' || q == '”' || q == '\'' || q == ')' || q == ']',
        is_white_space(ws),
    ensures
        spec_split_line(s + seq!['.', q, ws] + t).len() >= 1,
        spec_split_line(s + seq!['.', q, ws] + t)[0] == s + seq!['.', q],
{
    let c = s + seq!['.', q, ws] + t;
    let m = s.len() as int;
    assert forall|k: int| 0 <= k < m implies !is_terminator(#[trigger] c[k]) by {
        assert(c[k] == s[k]);
    }
    assert(c[m] == '.' && c[m + 1] == q && c[m + 2] == ws);
    assert(c[m - 1] == s[m - 1] && c[m - 2] == s[m - 2]);
    lemma_scan_skips_to(c, 0, m);
    assert(terminator_run_end(c, m + 1) == m + 1);
    assert(terminator_run_end(c, m) == m + 1);
    assert(closer_run_end(c, m + 2) == m + 2);
    assert(closer_run_end(c, m + 1) == m + 2);
    assert(run_end(c, m) == m + 2);
    assert(is_boundary_at(c, m, m + 2));
    let head = c.subrange(0, m + 2);
    assert(head =~= s + seq!['.', q]);
    assert(trim_start(head) == head);
    assert(trim_end(head) == head);
    assert(keep_piece(head) == seq![head]);
    assert(pieces_from(c, m, 0) == keep_piece(head) + pieces_from(c, m + 2, m + 2));
}

/// A terminator run that meets whitespace ends the sentence. When a line
/// opens with a sentence of non-terminators ending in two letters, then one
/// of `. ! ? …`, then whitespace, its first piece is that sentence with its
/// terminator, whatever follows.
pub proof fn lemma_terminator_ends_the_first_sentence(s: Seq<char>, p: char, ws: char, t: Seq<char>)
    requires
        s.len() >= 2,
        !is_white_space(s[0]),
        is_letter(s[s.len() - 1]),
        is_letter(s[s.len() - 2]),
        forall|k: int|
            0 <= k < s.len() ==> #[trigger] s[k] != '.' && s[k] != '!' && s[k] != '?' && s[k]
                != '…',
        p == '.' || p == '!' || p == '?' || p == '…',
        is_white_space(ws),
    ensures
        spec_split_line(s + seq![p, ws] + t).len() >= 1,
        spec_split_line(s + seq![p, ws] + t)[0] == s + seq![p],
{
    let c = s + seq![p, ws] + t;
    let m = s.len() as int;
    assert forall|k: int| 0 <= k < m implies !is_terminator(#[trigger] c[k]) by {
        assert(c[k] == s[k]);
    }
    assert(c[m] == p && c[m + 1] == ws);
    assert(c[m - 1] == s[m - 1] && c[m - 2] == s[m - 2]);
    lemma_scan_skips_to(c, 0, m);
    assert(terminator_run_end(c, m + 1) == m + 1);
    assert(terminator_run_end(c, m) == m + 1);
    assert(closer_run_end(c, m + 1) == m + 1);
    assert(run_end(c, m) == m + 1);
    assert(is_boundary_at(c, m, m + 1));
    let head = c.subrange(0, m + 1);
    assert(head =~= s + seq![p]);
    assert(trim_start(head) == head);
    assert(trim_end(head) == head);
    assert(keep_piece(head) == seq![head]);
    assert(pieces_from(c, m, 0) == keep_piece(head) + pieces_from(c, m + 1, m + 1));
}

/// A dot after a lone letter is an initial, and a dot between numerals a
/// decimal point: neither ends a sentence. A line made of a letter and a
/// dot then whitespace (`Л. Толстой`), or of a digit, a dot and a digit
/// (`3.5 рубля`), then a tail with no terminator, is one sentence.
pub proof fn lemma_initials_and_decimals_do_not_split(a: char, x: char, t: Seq<char>)
    requires
        (is_letter(a) && a != '.' && a != '!' && a != '?' && a != '…' && is_white_space(x)) || (
        '0' <= a <= '9' && '0' <= x <= '9' && is_numeral(a) && is_numeral(x)),
        forall|k: int|
            0 <= k < t.len() ==> #[trigger] t[k] != '.' && t[k] != '!' && t[k] != '?' && t[k]
                != '…',
    ensures
        spec_split_line(seq![a, '.', x] + t) == keep_piece(seq![a, '.', x] + t),
{
    let c = seq![a, '.', x] + t;
    assert(c[0] == a && c[1] == '.' && c[2] == x);
    assert forall|k: int| 2 <= k < c.len() implies !is_terminator(#[trigger] c[k]) by {
        if k > 2 {
            assert(c[k] == t[k - 3]);
        }
    }
    assert(!is_terminator(a));
    assert(terminator_run_end(c, 2) == 2);
    assert(terminator_run_end(c, 1) == 2);
    assert(closer_run_end(c, 2) == 2);
    assert(run_end(c, 1) == 2);
    assert(!is_boundary_at(c, 1, 2));
    assert(pieces_from(c, 0, 0) == pieces_from(c, 1, 0));
    assert(pieces_from(c, 1, 0) == pieces_from(c, 2, 0));
    lemma_scan_no_terminator_to_end(c, 2);
}

/// From `i` on no char is a terminator: the rest of the line, from the
/// sentence start `0`, is one piece.
proof fn lemma_scan_no_terminator_to_end(c: Seq<char>, i: int)
    requires
        0 <= i <= c.len(),
        forall|k: int| i <= k < c.len() ==> !is_terminator(#[trigger] c[k]),
    ensures
        pieces_from(c, i, 0) == keep_piece(c),
    decreases c.len() - i,
{
    if i < c.len() {
        lemma_scan_no_terminator_to_end(c, i + 1);
    } else {
        assert(c.subrange(0, c.len() as int) == c);
    }
}

/// Scanning a stretch with no terminator emits nothing until the end.
proof fn lemma_no_terminator_scan(c: Seq<char>, i: int)
    requires
        0 <= i <= c.len(),
        forall|k: int| 0 <= k < c.len() ==> !is_terminator(#[trigger] c[k]),
    ensures
        pieces_from(c, i, 0) == keep_piece(c),
    decreases c.len() - i,
{
    if i < c.len() {
        lemma_no_terminator_scan(c, i + 1);
    } else {
        assert(c.subrange(0, c.len() as int) == c);
    }
}

/// A line with no terminator is one sentence (its trimmed text), or nothing
/// when it is blank.
pub proof fn lemma_no_terminator_is_one_piece(c: Seq<char>)
    requires
        forall|k: int| 0 <= k < c.len() ==> !is_terminator(#[trigger] c[k]),
    ensures
        spec_split_line(c) == keep_piece(c),
{
    lemma_no_terminator_scan(c, 0);
}

/// The scan from position `i` up to `end` meets no sentence boundary: every
/// terminator run it starts ends by `end` and is no boundary.
pub open spec fn clear_from(c: Seq<char>, i: int, end: int) -> bool
    decreases c.len() - i,
{
    if i < 0 || i >= end || i >= c.len() {
        true
    } else if !is_terminator(c[i]) {
        clear_from(c, i + 1, end)
    } else {
        proof {
            lemma_run_end_bounds(c, i);
        }
        run_end(c, i) <= end && !is_boundary_at(c, i, run_end(c, i)) && clear_from(
            c,
            run_end(c, i),
            end,
        )
    }
}

/// Two clear stretches of the scan make one.
proof fn lemma_clear_concat(c: Seq<char>, s: int, i: int, i2: int)
    requires
        0 <= s <= i <= i2 <= c.len(),
        clear_from(c, s, i),
        clear_from(c, i, i2),
    ensures
        clear_from(c, s, i2),
    decreases c.len() - s,
{
    if s < i {
        lemma_run_end_bounds(c, s);
        if !is_terminator(c[s]) {
            lemma_clear_concat(c, s + 1, i, i2);
        } else {
            lemma_clear_concat(c, run_end(c, s), i, i2);
        }
    }
}

/// A clear stretch up to the line end stays clear when cut at `e`, where
/// only whitespace follows `e`.
proof fn lemma_clear_cut(c: Seq<char>, i: int, e: int)
    requires
        0 <= i <= e <= c.len(),
        clear_from(c, i, c.len() as int),
        forall|k: int| e <= k < c.len() ==> is_white_space(#[trigger] c[k]),
    ensures
        clear_from(c, i, e),
    decreases c.len() - i,
{
    if i < e {
        lemma_run_end_bounds(c, i);
        if !is_terminator(c[i]) {
            lemma_clear_cut(c, i + 1, e);
        } else {
            let r = run_end(c, i);
            lemma_run_stays_before_white_space(c, i, e);
            lemma_clear_cut(c, r, e);
        }
    }
}

/// Terminators and closers are no whitespace.
proof fn lemma_run_chars_not_white_space(ch: char)
    ensures
        is_terminator(ch) ==> !is_white_space(ch),
        is_closer(ch) ==> !is_white_space(ch),
{
}

/// A run that starts before `e` ends by `e` when `c[e]` is whitespace (or
/// `e` is the end).
proof fn lemma_run_stays_before_white_space(c: Seq<char>, i: int, e: int)
    requires
        0 <= i < e <= c.len(),
        e == c.len() || is_white_space(c[e]),
    ensures
        run_end(c, i) <= e,
{
    lemma_terminator_run_stops(c, i, e);
    lemma_run_end_bounds(c, i);
    lemma_closer_run_stops(c, terminator_run_end(c, i), e);
}

proof fn lemma_terminator_run_stops(c: Seq<char>, j: int, e: int)
    requires
        0 <= j <= e <= c.len(),
        e == c.len() || is_white_space(c[e]),
    ensures
        terminator_run_end(c, j) <= e,
    decreases c.len() - j,
{
    if j < c.len() && is_terminator(c[j]) {
        lemma_run_chars_not_white_space(c[j]);
        if j < e {
            lemma_terminator_run_stops(c, j + 1, e);
        }
    }
}

proof fn lemma_closer_run_stops(c: Seq<char>, j: int, e: int)
    requires
        0 <= j <= e <= c.len(),
        e == c.len() || is_white_space(c[e]),
    ensures
        closer_run_end(c, j) <= e,
    decreases c.len() - j,
{
    if 0 <= j < c.len() && is_closer(c[j]) {
        lemma_run_chars_not_white_space(c[j]);
        if j < e {
            lemma_closer_run_stops(c, j + 1, e);
        }
    }
}

/// Runs inside the window `c[a..e]` end at the same place read in the
/// window.
proof fn lemma_window_runs(c: Seq<char>, a: int, e: int, j: int)
    requires
        0 <= a <= j <= e <= c.len(),
        e == c.len() || is_white_space(c[e]),
    ensures
        terminator_run_end(c.subrange(a, e), j - a) == terminator_run_end(c, j) - a,
        closer_run_end(c.subrange(a, e), j - a) == closer_run_end(c, j) - a,
    decreases e - j,
{
    let p = c.subrange(a, e);
    if j < e {
        assert(p[j - a] == c[j]);
        lemma_window_runs(c, a, e, j + 1);
    } else if j < c.len() {
        lemma_run_chars_not_white_space(c[j]);
    }
}

/// Read in a window cut at whitespace, a run decides a boundary as it does
/// in the whole line.
proof fn lemma_window_boundary(c: Seq<char>, a: int, e: int, i: int)
    requires
        0 <= a <= i < e <= c.len(),
        a == 0 || is_white_space(c[a - 1]),
        e == c.len() || is_white_space(c[e]),
    ensures
        run_end(c.subrange(a, e), i - a) == run_end(c, i) - a,
        run_end(c, i) <= e,
        is_boundary_at(c.subrange(a, e), i - a, run_end(c, i) - a) == is_boundary_at(
            c,
            i,
            run_end(c, i),
        ),
{
    let p = c.subrange(a, e);
    lemma_run_stays_before_white_space(c, i, e);
    lemma_run_end_bounds(c, i);
    let t = terminator_run_end(c, i);
    let r = run_end(c, i);
    lemma_window_runs(c, a, e, i);
    lemma_window_runs(c, a, e, t);
    assert(p[i - a] == c[i]);
    if i - a >= 1 {
        assert(p[i - a - 1] == c[i - 1]);
    }
    if i - a >= 2 {
        assert(p[i - a - 2] == c[i - 2]);
    }
    if r < e {
        assert(p[r - a] == c[r]);
    }
}

/// Scanning the window from `i` to `fin` behaves as scanning the line over
/// the same stretch: no boundary in between.
proof fn lemma_window_scan(c: Seq<char>, a: int, e: int, i: int, fin: int)
    requires
        0 <= a <= i <= fin <= e <= c.len(),
        a == 0 || is_white_space(c[a - 1]),
        e == c.len() || is_white_space(c[e]),
        clear_from(c, i, fin),
    ensures
        pieces_from(c.subrange(a, e), i - a, 0) == pieces_from(c.subrange(a, e), fin - a, 0),
    decreases fin - i,
{
    let p = c.subrange(a, e);
    if i < fin {
        assert(p[i - a] == c[i]);
        if !is_terminator(c[i]) {
            lemma_window_scan(c, a, e, i + 1, fin);
        } else {
            lemma_window_boundary(c, a, e, i);
            lemma_run_end_bounds(c, i);
            lemma_window_scan(c, a, e, run_end(c, i), fin);
        }
    }
}

/// The trim of `c[start..end]` as a window `c[a..e]`: whitespace before `a`
/// and from `e`, non-whitespace at both ends of the window.
proof fn lemma_trim_window(c: Seq<char>, start: int, end: int) -> (w: (int, int))
    requires
        0 <= start <= end <= c.len(),
    ensures
        start <= w.0 <= w.1 <= end,
        trim(c.subrange(start, end)) == c.subrange(w.0, w.1),
        forall|k: int| start <= k < w.0 ==> is_white_space(#[trigger] c[k]),
        forall|k: int| w.1 <= k < end ==> is_white_space(#[trigger] c[k]),
        w.0 < w.1 ==> !is_white_space(c[w.0]) && !is_white_space(c[w.1 - 1]),
    decreases end - start,
{
    let seg = c.subrange(start, end);
    if start < end && is_white_space(c[start]) {
        assert(seg.drop_first() == c.subrange(start + 1, end));
        assert(trim_start(seg) == trim_start(c.subrange(start + 1, end)));
        lemma_trim_window(c, start + 1, end)
    } else {
        assert(trim_start(seg) == seg);
        let e = lemma_trim_end_window(c, start, end);
        (start, e)
    }
}

proof fn lemma_trim_end_window(c: Seq<char>, start: int, end: int) -> (e: int)
    requires
        0 <= start <= end <= c.len(),
        start < end ==> !is_white_space(c[start]),
    ensures
        start <= e <= end,
        trim_end(c.subrange(start, end)) == c.subrange(start, e),
        forall|k: int| e <= k < end ==> is_white_space(#[trigger] c[k]),
        start < e ==> !is_white_space(c[e - 1]),
    decreases end - start,
{
    let seg = c.subrange(start, end);
    if start < end && is_white_space(c[end - 1]) {
        assert(seg.drop_last() == c.subrange(start, end - 1));
        lemma_trim_end_window(c, start, end - 1)
    } else {
        end
    }
}

/// A piece that the line scan emits splits into itself again.
proof fn lemma_piece_resplits(c: Seq<char>, start: int, i: int, j: int, at_end: bool)
    requires
        0 <= start <= i <= j <= c.len(),
        start == 0 || start >= c.len() || is_white_space(c[start]),
        clear_from(c, start, i),
        at_end ==> i == c.len() && j == c.len(),
        !at_end ==> i < c.len() && is_terminator(c[i]) && j == run_end(c, i) && is_boundary_at(
            c,
            i,
            j,
        ),
        trim(c.subrange(start, j)).len() > 0,
    ensures
        spec_split_line(trim(c.subrange(start, j))) == seq![trim(c.subrange(start, j))],
{
    let w = lemma_trim_window(c, start, j);
    let a = w.0;
    let e = w.1;
    let p = c.subrange(a, e);
    lemma_trim_idempotent(c.subrange(start, j));
    assert(trim(p) == p);
    if a > start {
        assert(is_white_space(c[a - 1]));
    } else {
        assert(start == 0 || is_white_space(c[start]));
        assert(!is_white_space(c[a]));
    }
    // the scan from `start` reaches `a` through whitespace
    assert forall|k: int| start <= k < a implies !is_terminator(#[trigger] c[k]) by {
        lemma_run_chars_not_white_space(c[k]);
    }
    lemma_clear_skip_white(c, start, a, i);
    if at_end {
        assert(e == c.len() || is_white_space(c[e]));
        lemma_clear_cut(c, a, e);
        lemma_window_scan(c, a, e, a, e);
        assert(p.subrange(0, p.len() as int) == p);
        assert(pieces_from(p, e - a, 0) == keep_piece(p));
    } else {
        lemma_run_end_bounds(c, i);
        lemma_run_chars_not_white_space(c[i]);
        assert(!is_white_space(c[j - 1])) by {
            lemma_run_last_char(c, i);
        }
        assert(e == j);
        lemma_window_scan(c, a, e, a, i);
        lemma_window_boundary(c, a, e, i);
        assert(p[i - a] == c[i]);
        assert(p.subrange(0, p.len() as int) == p);
        assert(p.subrange(p.len() as int, p.len() as int) == Seq::<char>::empty());
        assert(trim(Seq::<char>::empty()) == Seq::<char>::empty());
        assert(pieces_from(p, p.len() as int, p.len() as int) == Seq::<Seq<char>>::empty());
        assert(pieces_from(p, i - a, 0) == keep_piece(p) + pieces_from(
            p,
            p.len() as int,
            p.len() as int,
        ));
    }
}

/// The last char of a run is a terminator or a closer.
proof fn lemma_run_last_char(c: Seq<char>, i: int)
    requires
        0 <= i < c.len(),
        is_terminator(c[i]),
    ensures
        is_terminator(c[run_end(c, i) - 1]) || is_closer(c[run_end(c, i) - 1]),
{
    lemma_run_end_bounds(c, i);
    lemma_terminator_run_last(c, i, i);
    lemma_closer_run_last(c, terminator_run_end(c, i), terminator_run_end(c, i));
}

proof fn lemma_terminator_run_last(c: Seq<char>, i: int, j: int)
    requires
        0 <= i <= j <= c.len(),
        forall|k: int| i <= k < j ==> is_terminator(#[trigger] c[k]),
        i < terminator_run_end(c, j) || i < j,
    ensures
        is_terminator(c[terminator_run_end(c, j) - 1]),
    decreases c.len() - j,
{
    if j < c.len() && is_terminator(c[j]) {
        lemma_terminator_run_last(c, i, j + 1);
    } else {
        assert(terminator_run_end(c, j) == j);
        assert(is_terminator(c[j - 1]));
    }
}

proof fn lemma_closer_run_last(c: Seq<char>, t: int, j: int)
    requires
        0 < t <= j <= c.len(),
        forall|k: int| t <= k < j ==> is_closer(#[trigger] c[k]),
    ensures
        closer_run_end(c, j) == t || is_closer(c[closer_run_end(c, j) - 1]),
    decreases c.len() - j,
{
    if j < c.len() && is_closer(c[j]) {
        lemma_closer_run_last(c, t, j + 1);
    } else {
        assert(closer_run_end(c, j) == j);
        if j > t {
            assert(is_closer(c[j - 1]));
        }
    }
}

/// Skipping a whitespace prefix keeps a clear stretch clear.
proof fn lemma_clear_skip_white(c: Seq<char>, start: int, a: int, i: int)
    requires
        0 <= start <= a <= i <= c.len(),
        forall|k: int| start <= k < a ==> !is_terminator(#[trigger] c[k]),
        clear_from(c, start, i),
    ensures
        clear_from(c, a, i),
    decreases a - start,
{
    if start < a {
        lemma_clear_skip_white(c, start + 1, a, i);
    }
}

/// Every piece of the scan from `i` (the current sentence started at
/// `start`, the scan clear in between) splits into itself again.
proof fn lemma_scan_pieces_resplit(c: Seq<char>, i: int, start: int)
    requires
        0 <= start <= i <= c.len(),
        start == 0 || start >= c.len() || is_white_space(c[start]),
        clear_from(c, start, i),
    ensures
        forall|k: int|
            0 <= k < pieces_from(c, i, start).len() ==> spec_split_line(
                #[trigger] pieces_from(c, i, start)[k],
            ) == seq![pieces_from(c, i, start)[k]],
    decreases c.len() - i,
{
    let ps = pieces_from(c, i, start);
    if i >= c.len() {
        assert(ps == keep_piece(c.subrange(start, c.len() as int)));
        if trim(c.subrange(start, c.len() as int)).len() > 0 {
            lemma_piece_resplits(c, start, i, c.len() as int, true);
            assert(ps[0] == trim(c.subrange(start, c.len() as int)));
        }
    } else if !is_terminator(c[i]) {
        assert(clear_from(c, i + 1, i + 1));
        assert(clear_from(c, i, i + 1));
        lemma_clear_concat(c, start, i, i + 1);
        lemma_scan_pieces_resplit(c, i + 1, start);
        assert(ps == pieces_from(c, i + 1, start));
    } else {
        lemma_run_end_bounds(c, i);
        let j = run_end(c, i);
        if is_boundary_at(c, i, j) {
            if trim(c.subrange(start, j)).len() > 0 {
                lemma_piece_resplits(c, start, i, j, false);
            }
            lemma_scan_pieces_resplit(c, j, j);
            let head = keep_piece(c.subrange(start, j));
            let tail = pieces_from(c, j, j);
            assert(ps == head + tail);
            assert forall|k: int| 0 <= k < ps.len() implies spec_split_line(#[trigger] ps[k])
                == seq![ps[k]] by {
                if k < head.len() {
                    assert(ps[k] == head[k]);
                } else {
                    assert(ps[k] == tail[k - head.len()]);
                }
            }
        } else {
            assert(clear_from(c, j, j));
            assert(clear_from(c, i, j));
            lemma_clear_concat(c, start, i, j);
            lemma_scan_pieces_resplit(c, j, start);
            assert(ps == pieces_from(c, j, start));
        }
    }
}

/// A piece holds no further sentence boundary: splitting any piece of
/// `split_line` again gives back that one piece.
pub proof fn lemma_pieces_resplit_to_themselves(line: Seq<char>)
    ensures
        forall|k: int|
            0 <= k < spec_split_line(line).len() ==> spec_split_line(
                #[trigger] spec_split_line(line)[k],
            ) == seq![spec_split_line(line)[k]],
{
    lemma_scan_pieces_resplit(line, 0, 0);
}

/// The chars of `s` that are no whitespace, in order.
pub open spec fn non_white(s: Seq<char>) -> Seq<char>
    decreases s.len(),
{
    if s.len() == 0 {
        Seq::empty()
    } else if is_white_space(s.last()) {
        non_white(s.drop_last())
    } else {
        non_white(s.drop_last()).push(s.last())
    }
}

/// Pieces laid end to end.
pub open spec fn concat_pieces(ps: Seq<Seq<char>>) -> Seq<char>
    decreases ps.len(),
{
    if ps.len() == 0 {
        Seq::empty()
    } else {
        concat_pieces(ps.drop_last()) + ps.last()
    }
}

proof fn lemma_non_white_concat(a: Seq<char>, b: Seq<char>)
    ensures
        non_white(a + b) == non_white(a) + non_white(b),
    decreases b.len(),
{
    if b.len() == 0 {
        assert(a + b == a);
    } else {
        lemma_non_white_concat(a, b.drop_last());
        assert((a + b).drop_last() == a + b.drop_last());
        assert((a + b).last() == b.last());
    }
}

proof fn lemma_concat_pieces_concat(x: Seq<Seq<char>>, y: Seq<Seq<char>>)
    ensures
        concat_pieces(x + y) == concat_pieces(x) + concat_pieces(y),
    decreases y.len(),
{
    if y.len() == 0 {
        assert(x + y == x);
    } else {
        lemma_concat_pieces_concat(x, y.drop_last());
        assert((x + y).drop_last() == x + y.drop_last());
        assert((x + y).last() == y.last());
    }
}

/// Trimming removes whitespace only.
proof fn lemma_non_white_trim(s: Seq<char>)
    ensures
        non_white(trim(s)) == non_white(s),
{
    lemma_non_white_trim_start(s);
    lemma_non_white_trim_end(trim_start(s));
}

proof fn lemma_non_white_trim_start(s: Seq<char>)
    ensures
        non_white(trim_start(s)) == non_white(s),
    decreases s.len(),
{
    if s.len() > 0 && is_white_space(s[0]) {
        lemma_non_white_trim_start(s.drop_first());
        lemma_non_white_concat(seq![s[0]], s.drop_first());
        assert(seq![s[0]] + s.drop_first() == s);
        assert(seq![s[0]].drop_last() == Seq::<char>::empty());
        assert(seq![s[0]].last() == s[0]);
        assert(non_white(Seq::<char>::empty()) == Seq::<char>::empty());
        assert(non_white(seq![s[0]]) == Seq::<char>::empty());
    }
}

proof fn lemma_non_white_trim_end(s: Seq<char>)
    ensures
        non_white(trim_end(s)) == non_white(s),
    decreases s.len(),
{
    if s.len() > 0 && is_white_space(s.last()) {
        lemma_non_white_trim_end(s.drop_last());
    }
}

/// The non-whitespace chars of the pieces scanned from `i` (the sentence
/// started at `start`) are those of `c[start..]`.
proof fn lemma_scan_keeps_text(c: Seq<char>, i: int, start: int)
    requires
        0 <= start <= i <= c.len(),
    ensures
        non_white(concat_pieces(pieces_from(c, i, start))) == non_white(
            c.subrange(start, c.len() as int),
        ),
    decreases c.len() - i,
{
    let ps = pieces_from(c, i, start);
    if i >= c.len() {
        let seg = c.subrange(start, c.len() as int);
        lemma_non_white_trim(seg);
        if trim(seg).len() == 0 {
            assert(ps == Seq::<Seq<char>>::empty());
            assert(trim(seg) == Seq::<char>::empty());
        } else {
            assert(ps == seq![trim(seg)]);
            assert(ps.drop_last() == Seq::<Seq<char>>::empty());
            assert(ps.last() == trim(seg));
            assert(concat_pieces(Seq::<Seq<char>>::empty()) == Seq::<char>::empty());
            assert(concat_pieces(ps) == Seq::<char>::empty() + trim(seg));
            assert(Seq::<char>::empty() + trim(seg) == trim(seg));
        }
    } else if !is_terminator(c[i]) {
        lemma_scan_keeps_text(c, i + 1, start);
        assert(ps == pieces_from(c, i + 1, start));
    } else {
        lemma_run_end_bounds(c, i);
        let j = run_end(c, i);
        if is_boundary_at(c, i, j) {
            let seg = c.subrange(start, j);
            let head = keep_piece(seg);
            let tail = pieces_from(c, j, j);
            assert(ps == head + tail);
            lemma_scan_keeps_text(c, j, j);
            lemma_concat_pieces_concat(head, tail);
            lemma_non_white_concat(concat_pieces(head), concat_pieces(tail));
            lemma_non_white_trim(seg);
            if trim(seg).len() == 0 {
                assert(head == Seq::<Seq<char>>::empty());
                assert(trim(seg) == Seq::<char>::empty());
            } else {
                assert(head == seq![trim(seg)]);
                assert(head.drop_last() == Seq::<Seq<char>>::empty());
                assert(head.last() == trim(seg));
                assert(concat_pieces(Seq::<Seq<char>>::empty()) == Seq::<char>::empty());
                assert(concat_pieces(head) == Seq::<char>::empty() + trim(seg));
                assert(Seq::<char>::empty() + trim(seg) == trim(seg));
            }
            lemma_non_white_concat(seg, c.subrange(j, c.len() as int));
            assert(seg + c.subrange(j, c.len() as int) == c.subrange(start, c.len() as int));
        } else {
            lemma_scan_keeps_text(c, j, start);
            assert(ps == pieces_from(c, j, start));
        }
    }
}

/// The pieces keep the line's text: laid end to end, they hold every
/// non-whitespace char of the line, in order, and nothing else besides
/// whitespace.
pub proof fn lemma_pieces_keep_the_text(line: Seq<char>)
    ensures
        non_white(concat_pieces(spec_split_line(line))) == non_white(line),
{
    lemma_scan_keeps_text(line, 0, 0);
    assert(line.subrange(0, line.len() as int) == line);
}

/// Every piece scanned from `i` but the last ends with a terminator or a
/// closer.
proof fn lemma_scan_pieces_end_with_runs(c: Seq<char>, i: int, start: int)
    requires
        0 <= start <= i <= c.len(),
    ensures
        forall|k: int|
            0 <= k < pieces_from(c, i, start).len() - 1 ==> #[trigger] pieces_from(
                c,
                i,
                start,
            )[k].len() > 0 && (is_terminator(pieces_from(c, i, start)[k].last()) || is_closer(
                pieces_from(c, i, start)[k].last(),
            )),
    decreases c.len() - i,
{
    let ps = pieces_from(c, i, start);
    if i >= c.len() {
    } else if !is_terminator(c[i]) {
        lemma_scan_pieces_end_with_runs(c, i + 1, start);
        assert(ps == pieces_from(c, i + 1, start));
    } else {
        lemma_run_end_bounds(c, i);
        let j = run_end(c, i);
        if is_boundary_at(c, i, j) {
            let seg = c.subrange(start, j);
            let head = keep_piece(seg);
            let tail = pieces_from(c, j, j);
            assert(ps == head + tail);
            lemma_scan_pieces_end_with_runs(c, j, j);
            if trim(seg).len() > 0 {
                let w = lemma_trim_window(c, start, j);
                lemma_run_last_char(c, i);
                lemma_run_chars_not_white_space(c[j - 1]);
                assert(w.1 == j);
                assert(trim(seg).last() == c[j - 1]);
            }
            assert forall|k: int| 0 <= k < ps.len() - 1 implies #[trigger] ps[k].len() > 0 && (
            is_terminator(ps[k].last()) || is_closer(ps[k].last())) by {
                if k < head.len() {
                    assert(ps[k] == head[k]);
                    assert(head[k] == trim(seg));
                } else {
                    assert(ps[k] == tail[k - head.len()]);
                }
            }
        } else {
            lemma_scan_pieces_end_with_runs(c, j, start);
            assert(ps == pieces_from(c, j, start));
        }
    }
}

/// Every piece but the last ends a sentence: its last char is a terminator
/// or a closing quote/bracket.
pub proof fn lemma_pieces_end_with_terminators(line: Seq<char>)
    ensures
        forall|k: int|
            0 <= k < spec_split_line(line).len() - 1 ==> #[trigger] spec_split_line(line)[k].len()
                > 0 && (is_terminator(spec_split_line(line)[k].last()) || is_closer(
                spec_split_line(line)[k].last(),
            )),
{
    lemma_scan_pieces_end_with_runs(line, 0, 0);
}

/// Index of the first line feed of `s` at or after `i`, or `s.len()`.
pub open spec fn newline_from(s: Seq<char>, i: int) -> int
    decreases s.len() - i,
{
    if i >= s.len() {
        s.len() as int
    } else if s[i] == '\n' {
        i
    } else {
        newline_from(s, i + 1)
    }
}

/// The next line feed lies between `i` and the end.
pub proof fn lemma_newline_from_bounds(s: Seq<char>, i: int)
    requires
        0 <= i <= s.len(),
    ensures
        i <= newline_from(s, i) <= s.len(),
        newline_from(s, i) < s.len() ==> s[newline_from(s, i)] == '\n',
    decreases s.len() - i,
{
    if i < s.len() && s[i] != '\n' {
        lemma_newline_from_bounds(s, i + 1);
    }
}

/// A sentence the sweep keeps: at least `min_chars` chars, one of them a
/// letter.
pub open spec fn is_sweep_sentence(s: Seq<char>, min_chars: nat) -> bool {
    s.len() >= min_chars && has_letter(s)
}

/// The sentences of `ss` that the sweep keeps, in order.
pub open spec fn sweep_filter(ss: Seq<Seq<char>>, min_chars: nat) -> Seq<Seq<char>>
    decreases ss.len(),
{
    if ss.len() == 0 {
        Seq::empty()
    } else {
        let prev = sweep_filter(ss.drop_last(), min_chars);
        if is_sweep_sentence(ss.last(), min_chars) {
            prev.push(ss.last())
        } else {
            prev
        }
    }
}

/// The sentences of one markdown line: none for a blank line or a heading
/// (`#`); otherwise the pieces of the trimmed line, glued, then filtered.
pub open spec fn line_sentences(line: Seq<char>, min_chars: nat) -> Seq<Seq<char>> {
    let t = trim(line);
    if t.len() == 0 || t[0] == '#' {
        Seq::empty()
    } else {
        sweep_filter(spec_glue(spec_split_line(t), min_chars), min_chars)
    }
}

/// The sentences of the lines of `s` that start at or after char `i` (a
/// line start), line after line.
pub open spec fn sweep_from(s: Seq<char>, i: int, min_chars: nat) -> Seq<Seq<char>>
    decreases s.len() + 1 - i,
{
    if i < 0 || i > s.len() {
        Seq::empty()
    } else {
        let e = newline_from(s, i);
        proof {
            lemma_newline_from_bounds(s, i);
        }
        let here = line_sentences(s.subrange(i, e), min_chars);
        if e < s.len() {
            here + sweep_from(s, e + 1, min_chars)
        } else {
            here
        }
    }
}

/// Whether `s` holds an alphabetic char.
fn str_has_letter(s: &str) -> (r: bool)
    ensures
        r == has_letter(s@),
{
    let cs = str_chars(s);
    let mut k: usize = 0;
    while k < cs.len()
        invariant
            k <= cs@.len(),
            cs@ == s@,
            forall|m: int| 0 <= m < k ==> !unicode_alphabetic(#[trigger] s@[m]),
        decreases cs@.len() - k,
    {
        if is_alphabetic(cs[k]) {
            return true;
        }
        k = k + 1;
    }
    false
}

/// The kept sentences of one trimmed, non-heading line.
fn sentences_of_line(line: &str, min_chars: usize, out: &mut Vec<String>)
    ensures
        final(out)@.map_values(|s: String| s@) == old(out)@.map_values(|s: String| s@)
            + sweep_filter(spec_glue(spec_split_line(line@), min_chars as nat), min_chars as nat),
{
    let pieces = split_line(line);
    let mut owned: Vec<String> = Vec::new();
    let mut k: usize = 0;
    while k < pieces.len()
        invariant
            k <= pieces@.len(),
            owned@.map_values(|s: String| s@) == pieces@.map_values(|t: &str| t@).take(k as int),
        decreases pieces@.len() - k,
    {
        owned.push(String::from_str(pieces[k]));
        proof {
            let pv = pieces@.map_values(|t: &str| t@);
            assert(pv.take(k + 1) == pv.take(k as int).push(pv[k as int]));
        }
        k = k + 1;
    }
    proof {
        let pv = pieces@.map_values(|t: &str| t@);
        assert(pv.take(pieces@.len() as int) == pv);
    }
    let glued = glue_short(owned, min_chars);
    let ghost gv = glued@.map_values(|s: String| s@);
    let ghost base = out@.map_values(|s: String| s@);
    let mut q: usize = 0;
    while q < glued.len()
        invariant
            q <= glued@.len(),
            gv == glued@.map_values(|s: String| s@),
            out@.map_values(|s: String| s@) == base + sweep_filter(gv.take(q as int), min_chars as nat),
        decreases glued@.len() - q,
    {
        let g = &glued[q];
        proof {
            assert(gv.take(q + 1).drop_last() == gv.take(q as int));
            assert(gv.take(q + 1).last() == g@);
        }
        if g.as_str().unicode_len() >= min_chars && str_has_letter(g.as_str()) {
            let ghost before = out@.map_values(|s: String| s@);
            out.push(g.clone());
            proof {
                assert(out@.map_values(|s: String| s@) == before.push(g@));
            }
        }
        q = q + 1;
    }
    proof {
        assert(gv.take(glued@.len() as int) == gv);
    }
}

/// Split a markdown document into sentences: heading lines (`#`) and blank
/// lines are skipped; every other line is trimmed, split with
/// [`split_line`] and glued with [`glue_short`]; sentences shorter than
/// `min_chars` chars or without a letter are dropped.
pub fn sweep_sentences(md: &str, min_chars: usize) -> (r: Vec<String>)
    ensures
        r@.map_values(|s: String| s@) == sweep_from(md@, 0, min_chars as nat),
{
    let chars = str_chars(md);
    let n = chars.len();
    let mut out: Vec<String> = Vec::new();
    let mut i: usize = 0;
    loop
        invariant_except_break
            i <= n,
            out@.map_values(|s: String| s@) + sweep_from(md@, i as int, min_chars as nat)
                == sweep_from(md@, 0, min_chars as nat),
        invariant
            n == md@.len(),
            chars@ == md@,
        ensures
            out@.map_values(|s: String| s@) == sweep_from(md@, 0, min_chars as nat),
        decreases n - i,
    {
        let mut e: usize = i;
        while e < n && chars[e] != '\n'
            invariant
                i <= e <= n,
                n == md@.len(),
                chars@ == md@,
                newline_from(md@, e as int) == newline_from(md@, i as int),
            decreases n - e,
        {
            e = e + 1;
        }
        let ghost before = out@.map_values(|s: String| s@);
        let ghost line = md@.subrange(i as int, e as int);
        proof {
            lemma_newline_from_bounds(md@, i as int);
            assert(newline_from(md@, e as int) == e);
            assert(chars@.subrange(i as int, e as int) == line);
        }
        let (a, b) = trimmed_bounds(chars.as_slice(), i, e);
        if a < b && chars[a] != '#' {
            let t = md.substring_char(a, b);
            proof {
                assert(t@ == trim(line));
                assert(trim(line)[0] == chars@[a as int]);
            }
            sentences_of_line(t, min_chars, &mut out);
        } else {
            proof {
                if a < b {
                    assert(trim(line)[0] == chars@[a as int]);
                }
            }
        }
        assert(out@.map_values(|s: String| s@) == before + line_sentences(line, min_chars as nat));
        if e >= n {
            proof {
                assert(sweep_from(md@, i as int, min_chars as nat) == line_sentences(
                    line,
                    min_chars as nat,
                ));
            }
            break;
        }
        proof {
            assert(sweep_from(md@, i as int, min_chars as nat) == line_sentences(
                line,
                min_chars as nat,
            ) + sweep_from(md@, e + 1, min_chars as nat));
        }
        i = e + 1;
    }
    out
}

} // verus!
