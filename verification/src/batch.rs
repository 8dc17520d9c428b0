//! Batch scheduling for the compiled scoring plans: which token budget `K`
//! a batch runs at, how rows longer than `K` are cut into chunks whose
//! per-chunk sums add up to the whole-row score, and the signed bucket
//! indices a plan gathers. Executing the plans happens outside this
//! library.
use vstd::prelude::*;

use crate::features::{spec_orders_fit, spec_token_keys, token_keys, FeatureConfig};
use crate::hash::{lemma_high_bits_in_range, FeatureHasher};
use crate::model::{lemma_pow2_u64, pow2_nat};

verus! {

/// Token budgets of the smaller plans; the caller's `k` is the top rung.
pub const K_LADDER: [usize; 2] = [64, 256];

/// The ladder of token budgets for a top budget `k` (raised to at least 1):
/// the fixed rungs below it, ascending, then `k` itself.
pub open spec fn spec_plan_ladder(k: usize) -> Seq<usize> {
    let top: usize = if k < 1 {
        1
    } else {
        k
    };
    let low = if top > 256 {
        seq![64usize, 256usize]
    } else if top > 64 {
        seq![64usize]
    } else {
        Seq::empty()
    };
    low.push(top)
}

/// The plan ladder for a top token budget `k`.
pub fn plan_ladder(k: usize) -> (r: Vec<usize>)
    ensures
        r@ == spec_plan_ladder(k),
        r@.len() >= 1,
        forall|i: int, j: int| 0 <= i < j < r@.len() ==> r@[i] < r@[j],
        r@.last() >= 1,
{
    let top = if k < 1 {
        1
    } else {
        k
    };
    let mut rungs: Vec<usize> = Vec::new();
    let mut i: usize = 0;
    while i < 2
        invariant
            i <= 2,
            rungs@ == (if i == 0 {
                Seq::<usize>::empty()
            } else if i == 1 {
                if 64 < top {
                    seq![64usize]
                } else {
                    Seq::empty()
                }
            } else if top > 256 {
                seq![64usize, 256usize]
            } else if top > 64 {
                seq![64usize]
            } else {
                Seq::empty()
            }),
        decreases 2 - i,
    {
        if K_LADDER[i] < top {
            rungs.push(K_LADDER[i]);
        }
        i = i + 1;
    }
    rungs.push(top);
    rungs
}

/// Whether a batch of `len` documents fits a plan compiled for
/// `max_batch` rows; a larger batch is refused with both numbers.
pub fn check_batch_len(len: usize, max_batch: usize) -> (r: Result<(), (usize, usize)>)
    ensures
        r is Ok <==> len <= max_batch,
        r is Err ==> r == Err::<(), (usize, usize)>((len, max_batch)),
{
    if len > max_batch {
        Err((len, max_batch))
    } else {
        Ok(())
    }
}

/// Index of the first rung whose budget holds `longest` tokens, or the
/// last rung.
pub fn pick_rung(ladder: &[usize], longest: usize) -> (r: usize)
    requires
        ladder@.len() >= 1,
    ensures
        r < ladder@.len(),
        ladder@[r as int] >= longest ==> forall|j: int| 0 <= j < r ==> ladder@[j] < longest,
        ladder@[r as int] < longest ==> r == ladder@.len() - 1 && forall|j: int|
            0 <= j < ladder@.len() ==> ladder@[j] < longest,
{
    let mut i: usize = 0;
    while i < ladder.len()
        invariant
            i <= ladder@.len(),
            forall|j: int| 0 <= j < i ==> ladder@[j] < longest,
        decreases ladder@.len() - i,
    {
        if ladder[i] >= longest {
            return i;
        }
        i = i + 1;
    }
    ladder.len() - 1
}

/// The chunk starts of a row of `len` ids at budget `k`: every multiple of
/// `k` below `len` (and the single start 0 for an empty row).
pub open spec fn is_chunk_start(len: nat, k: nat, s: nat) -> bool {
    s % k == 0 && (s < len || s == 0)
}

/// The later chunks of row `row` from start `s` on: `s, s + k, …` while
/// below `len`, in ascending order.
pub open spec fn row_chunks_from(row: usize, len: nat, k: nat, s: nat) -> Seq<(usize, usize)>
    decreases len + k - s,
{
    if k == 0 || s >= len {
        Seq::empty()
    } else {
        seq![(row, s as usize)] + row_chunks_from(row, len, k, s + k)
    }
}

/// The later chunks (starts `k, 2k, …`) of the first `m` rows, row by row.
pub open spec fn later_chunks(row_lens: Seq<usize>, k: nat, m: nat) -> Seq<(usize, usize)>
    decreases m,
{
    if m == 0 {
        Seq::empty()
    } else {
        later_chunks(row_lens, k, (m - 1) as nat) + row_chunks_from(
            (m - 1) as usize,
            row_lens[m - 1] as nat,
            k,
            k,
        )
    }
}

/// The schedule: the first chunk `(row, 0)` of every row in row order,
/// then the later chunks of every row, row by row, each row's in ascending
/// start order.
pub open spec fn spec_chunk_schedule(row_lens: Seq<usize>, k: nat) -> Seq<(usize, usize)> {
    Seq::new(row_lens.len(), |i: int| (i as usize, 0usize)) + later_chunks(
        row_lens,
        k,
        row_lens.len(),
    )
}

/// Every `(row, start)` pair to score: the first chunk of each row in row
/// order, then the remaining chunks of the long rows, row by row, ascending.
pub fn chunk_schedule(row_lens: &[usize], k: usize) -> (r: Vec<(usize, usize)>)
    requires
        k >= 1,
    ensures
        r@ == spec_chunk_schedule(row_lens@, k as nat),
        // the first chunk of every row comes first, in row order
        r@.len() >= row_lens@.len(),
        forall|i: int| 0 <= i < row_lens@.len() ==> #[trigger] r@[i] == (i as usize, 0usize),
        // every chunk is a chunk start of an existing row
        forall|i: int|
            0 <= i < r@.len() ==> (#[trigger] r@[i]).0 < row_lens@.len() && is_chunk_start(
                row_lens@[r@[i].0 as int] as nat,
                k as nat,
                r@[i].1 as nat,
            ),
        // no chunk is scheduled twice
        forall|i: int, j: int|
            0 <= i < j < r@.len() ==> #[trigger] r@[i] != #[trigger] r@[j],
        // every chunk start of every row is scheduled
        forall|row: int, s: nat|
            0 <= row < row_lens@.len() && is_chunk_start(row_lens@[row] as nat, k as nat, s)
                ==> exists|i: int| 0 <= i < r@.len() && #[trigger] r@[i] == (row as usize, s as usize),
{
    let n = row_lens.len();
    let mut out: Vec<(usize, usize)> = Vec::new();
    let mut r: usize = 0;
    while r < n
        invariant
            r <= n,
            n == row_lens@.len(),
            out@.len() == r,
            forall|i: int| 0 <= i < r ==> #[trigger] out@[i] == (i as usize, 0usize),
        decreases n - r,
    {
        out.push((r, 0));
        r = r + 1;
    }
    let ghost firsts = Seq::new(row_lens@.len(), |i: int| (i as usize, 0usize));
    assert(out@ == firsts + later_chunks(row_lens@, k as nat, 0));
    let mut row: usize = 0;
    while row < n
        invariant
            k >= 1,
            row <= n,
            n == row_lens@.len(),
            out@.len() >= n,
            forall|i: int| 0 <= i < n ==> #[trigger] out@[i] == (i as usize, 0usize),
            forall|i: int|
                0 <= i < out@.len() ==> (#[trigger] out@[i]).0 < n && is_chunk_start(
                    row_lens@[out@[i].0 as int] as nat,
                    k as nat,
                    out@[i].1 as nat,
                ),
            forall|i: int| n <= i < out@.len() ==> (#[trigger] out@[i]).0 < row && out@[i].1 > 0,
            forall|i: int, j: int| 0 <= i < j < out@.len() ==> #[trigger] out@[i] != #[trigger] out@[j],
            forall|rr: int, s: nat|
                0 <= rr < row && is_chunk_start(row_lens@[rr] as nat, k as nat, s) ==> exists|i: int|
                    0 <= i < out@.len() && #[trigger] out@[i] == (rr as usize, s as usize),
            firsts == Seq::new(row_lens@.len(), |i: int| (i as usize, 0usize)),
            out@ == firsts + later_chunks(row_lens@, k as nat, row as nat),
        decreases n - row,
    {
        let len = row_lens[row];
        let ghost before = out@.len();
        let ghost base = out@;
        let mut start: usize = k;
        proof {
            assert forall|s: nat| 0 < s < k && is_chunk_start(len as nat, k as nat, s) implies exists|
                i: int,
            | before <= i < out@.len() && #[trigger] out@[i] == (row, s as usize) by {
                lemma_no_multiple_between(s, 0, k as nat);
            }
            lemma_next_multiple(0, k as nat);
        }
        while start < len
            invariant_except_break
                out@ + row_chunks_from(row, len as nat, k as nat, start as nat) == base
                    + row_chunks_from(row, len as nat, k as nat, k as nat),
                forall|i: int| before <= i < out@.len() ==> (#[trigger] out@[i]).1 < start,
                forall|s: nat|
                    0 < s < start && is_chunk_start(len as nat, k as nat, s) ==> exists|i: int|
                        before <= i < out@.len() && #[trigger] out@[i] == (row, s as usize),
            invariant
                k >= 1,
                row < n,
                n == row_lens@.len(),
                len == row_lens@[row as int],
                k <= start,
                start % k == 0,
                before <= out@.len(),
                out@.len() >= n,
                forall|i: int| 0 <= i < n ==> #[trigger] out@[i] == (i as usize, 0usize),
                forall|i: int|
                    0 <= i < out@.len() ==> (#[trigger] out@[i]).0 < n && is_chunk_start(
                        row_lens@[out@[i].0 as int] as nat,
                        k as nat,
                        out@[i].1 as nat,
                    ),
                forall|i: int| n <= i < before ==> (#[trigger] out@[i]).0 < row && out@[i].1 > 0,
                forall|i: int| before <= i < out@.len() ==> (#[trigger] out@[i]).0 == row && 0 < out@[i].1,
                forall|i: int, j: int|
                    0 <= i < j < out@.len() ==> #[trigger] out@[i] != #[trigger] out@[j],
                forall|rr: int, s: nat|
                    0 <= rr < row && is_chunk_start(row_lens@[rr] as nat, k as nat, s) ==> exists|
                        i: int,
                    |
                        0 <= i < out@.len() && #[trigger] out@[i] == (rr as usize, s as usize),
            ensures
                forall|s: nat|
                    0 < s && is_chunk_start(len as nat, k as nat, s) ==> exists|i: int|
                        before <= i < out@.len() && #[trigger] out@[i] == (row, s as usize),
                out@ == base + row_chunks_from(row, len as nat, k as nat, k as nat),
            decreases len - start,
        {
            let ghost prev = out@;
            out.push((row, start));
            proof {
                assert(row_chunks_from(row, len as nat, k as nat, start as nat) == seq![
                    (row, start),
                ] + row_chunks_from(row, len as nat, k as nat, (start + k) as nat));
                assert(out@ + row_chunks_from(row, len as nat, k as nat, (start + k) as nat)
                    == prev + row_chunks_from(row, len as nat, k as nat, start as nat));
                lemma_next_multiple(start as nat, k as nat);
                assert forall|rr: int, s: nat|
                    0 <= rr < row && is_chunk_start(row_lens@[rr] as nat, k as nat, s) implies exists|
                    i: int,
                | 0 <= i < out@.len() && #[trigger] out@[i] == (rr as usize, s as usize) by {
                    let i = choose|i: int|
                        0 <= i < prev.len() && #[trigger] prev[i] == (rr as usize, s as usize);
                    assert(out@[i] == prev[i]);
                }
                assert forall|s: nat|
                    0 < s < start + k && is_chunk_start(len as nat, k as nat, s) implies exists|i: int|
                    before <= i < out@.len() && #[trigger] out@[i] == (row, s as usize) by {
                    if s < start {
                        let i = choose|i: int|
                            before <= i < prev.len() && #[trigger] prev[i] == (row, s as usize);
                        assert(out@[i] == (row, s as usize));
                    } else if s == start {
                        assert(out@[prev.len() as int] == (row, s as usize));
                    } else {
                        lemma_no_multiple_between(s, start as nat, k as nat);
                    }
                }
            }
            if len - start <= k {
                proof {
                    assert(row_chunks_from(row, len as nat, k as nat, (start + k) as nat)
                        == Seq::<(usize, usize)>::empty());
                    assert(out@ + Seq::<(usize, usize)>::empty() == out@);
                }
                break;
            }
            start = start + k;
        }
        proof {
            assert(later_chunks(row_lens@, k as nat, (row + 1) as nat) == later_chunks(
                row_lens@,
                k as nat,
                row as nat,
            ) + row_chunks_from(row, len as nat, k as nat, k as nat));
            assert forall|rr: int, s: nat|
                0 <= rr < row + 1 && is_chunk_start(row_lens@[rr] as nat, k as nat, s) implies exists|
                i: int,
            | 0 <= i < out@.len() && #[trigger] out@[i] == (rr as usize, s as usize) by {
                if rr == row {
                    if s == 0 {
                        assert(out@[rr] == (rr as usize, 0usize));
                    } else {
                        assert(s < len);
                    }
                }
            }
        }
        row = row + 1;
    }
    out
}

/// The chunks of a row tile it exactly: every id position `p` of the row
/// lies in exactly one chunk window `[s, s + k)` of a chunk start `s`, so
/// summing per-chunk scores counts every id of the row once — the chunked
/// score is the untruncated score.
pub proof fn lemma_chunks_tile_row(len: nat, k: nat, p: nat)
    requires
        k >= 1,
        p < len,
    ensures
        is_chunk_start(len, k, (p - p % k) as nat),
        p - p % k <= p < p - p % k + k,
        forall|s: nat| is_chunk_start(len, k, s) && s <= p < s + k ==> s == p - p % k,
{
    assert(p % k < k && p % k <= p) by (nonlinear_arith)
        requires
            k >= 1,
    ;
    let s0 = (p - p % k) as nat;
    assert(s0 % k == 0) by (nonlinear_arith)
        requires
            k >= 1,
            s0 == p - p % k,
    ;
    assert forall|s: nat| is_chunk_start(len, k, s) && s <= p < s + k implies s == s0 by {
        assert(s == s0) by (nonlinear_arith)
            requires
                k >= 1,
                s % k == 0,
                s0 % k == 0,
                s <= p < s + k,
                s0 <= p < s0 + k,
        ;
    }
}

/// The next multiple of `k` after a multiple of `k`.
proof fn lemma_next_multiple(start: nat, k: nat)
    requires
        k >= 1,
        start % k == 0,
    ensures
        (start + k) % k == 0,
{
    assert((start + k) % k == 0) by (nonlinear_arith)
        requires
            k >= 1,
            start % k == 0,
    ;
}

/// Between two consecutive multiples of `k` there is no other multiple.
proof fn lemma_no_multiple_between(s: nat, start: nat, k: nat)
    requires
        k >= 1,
        start % k == 0,
        start < s < start + k,
    ensures
        s % k != 0,
{
    assert(s % k != 0) by (nonlinear_arith)
        requires
            k >= 1,
            start % k == 0,
            start < s < start + k,
    ;
}

/// The plan row for the chunk of `ids` starting at `start`: up to `k` ids,
/// then `pad` to length `k`.
pub fn chunk_row(ids: &[i32], start: usize, k: usize, pad: i32) -> (r: Vec<i32>)
    requires
        start <= ids@.len(),
    ensures
        r@.len() == k,
        forall|p: int|
            0 <= p < k ==> #[trigger] r@[p] == if start + p < ids@.len() {
                ids@[start + p]
            } else {
                pad
            },
{
    let mut row: Vec<i32> = Vec::new();
    let mut p: usize = 0;
    while p < k
        invariant
            p <= k,
            start <= ids@.len(),
            row@.len() == p,
            forall|q: int|
                0 <= q < p ==> #[trigger] row@[q] == if start + q < ids@.len() {
                    ids@[start + q]
                } else {
                    pad
                },
        decreases k - p,
    {
        if p < ids.len() - start {
            row.push(ids[start + p]);
        } else {
            row.push(pad);
        }
        p = p + 1;
    }
    row
}

/// The gather-table row of a key: the `+P` block holds rows `0..=D`, the
/// `-P` block rows `D+1..=2D+1`, so a negative token shifts its bucket by
/// `D + 1`.
pub open spec fn spec_signed_index(hasher: FeatureHasher, key: u64, log2_d: u32) -> int {
    hasher.spec_bucket(key, log2_d) + if hasher.spec_negative(key) {
        pow2_nat(log2_d as nat) + 1
    } else {
        0
    }
}

/// Whether a model of `2^log2_d` buckets can be gathered: its `[P; -P]`
/// table has `2·D + 2` rows, which an `i32` index reaches only for
/// `log2_d < 30`. The error carries the refused `log2_d`.
pub fn check_gather_range(log2_d: u32) -> (r: Result<(), u32>)
    ensures
        r == (if log2_d < 30 {
            Ok::<(), u32>(())
        } else {
            Err(log2_d)
        }),
{
    if log2_d < 30 {
        Ok(())
    } else {
        Err(log2_d)
    }
}

impl FeatureHasher {
    /// Gather-table row of a key in the `[P; -P]` table. The table has
    /// `2·D + 2` rows and its index is an `i32`, so `log2_d` stays below 30
    /// (metadata may say 30; such a model cannot be gathered).
    pub fn signed_index(&self, key: u64, log2_d: u32) -> (r: i32)
        requires
            0 < log2_d < 30,
        ensures
            r as int == spec_signed_index(*self, key, log2_d),
            0 <= r <= 2 * pow2_nat(log2_d as nat) + 1,
    {
        let (bucket, neg) = self.bucket(key, log2_d);
        proof {
            lemma_pow2_u64(log2_d);
            assert((1u32 << log2_d) as u64 == (1u64 << log2_d)) by (bit_vector)
                requires
                    log2_d < 30,
            ;
            assert((1u64 << log2_d) <= 0x2000_0000u64) by (bit_vector)
                requires
                    log2_d < 30,
            ;
        }
        let d = 1u32 << log2_d;
        if neg {
            (bucket + d + 1) as i32
        } else {
            bucket as i32
        }
    }
}

/// Append the gather-table rows of every token of `text` to `out`
/// (`log2_d < 30`, as for [`FeatureHasher::signed_index`]: the `i32` index
/// of a `2·D + 2`-row table).
pub fn push_signed_indices(
    text: &str,
    cfg: &FeatureConfig,
    hasher: &FeatureHasher,
    log2_d: u32,
    out: &mut Vec<i32>,
)
    requires
        spec_orders_fit(text@, *cfg),
        0 < log2_d < 30,
    ensures
        final(out)@.len() == old(out)@.len() + spec_token_keys(text@, *cfg).len(),
        forall|i: int| 0 <= i < old(out)@.len() ==> #[trigger] final(out)@[i] == old(out)@[i],
        forall|i: int|
            0 <= i < spec_token_keys(text@, *cfg).len() ==> #[trigger] final(out)@[old(out)@.len()
                + i] as int == spec_signed_index(
                *hasher,
                spec_token_keys(text@, *cfg)[i],
                log2_d,
            ),
{
    let keys = token_keys(text, cfg);
    let ghost base = out@;
    let mut i: usize = 0;
    while i < keys.len()
        invariant
            i <= keys@.len(),
            keys@ == spec_token_keys(text@, *cfg),
            0 < log2_d < 30,
            out@.len() == base.len() + i,
            forall|j: int| 0 <= j < base.len() ==> #[trigger] out@[j] == base[j],
            forall|j: int|
                0 <= j < i ==> #[trigger] out@[base.len() + j] as int == spec_signed_index(
                    *hasher,
                    keys@[j],
                    log2_d,
                ),
        decreases keys@.len() - i,
    {
        let idx = hasher.signed_index(keys[i], log2_d);
        out.push(idx);
        i = i + 1;
    }
}

} // verus!
