//! Splitting an inclusive interval of candidate proofs into contiguous
//! chunks of nearly equal size.

use vstd::prelude::*;

verus! {

/// How many candidates the inclusive interval `[start, end]` holds.
pub open spec fn interval_len(start: u64, end: u64) -> int {
    end - start + 1
}

/// The number of chunks made: the number asked for, but never more than
/// the interval has candidates, so that no chunk is empty.
pub open spec fn chunk_count(start: u64, end: u64, chunks: u64) -> int {
    if chunks <= interval_len(start, end) {
        chunks as int
    } else {
        interval_len(start, end)
    }
}

/// The first candidate of chunk `i` when `len` candidates from `start` on
/// are split into `n` chunks: every chunk holds `len / n` of them, and each
/// of the first `len % n` chunks one more.
pub open spec fn chunk_first(start: int, len: int, n: int, i: int) -> int {
    start + i * (len / n) + if i < len % n { i } else { len % n }
}

/// The last candidate of chunk `i`.
pub open spec fn chunk_last(start: int, len: int, n: int, i: int) -> int {
    chunk_first(start, len, n, i + 1) - 1
}

/// The number of candidates in chunk `i`.
pub open spec fn chunk_size(len: int, n: int, i: int) -> int {
    len / n + if i < len % n { 1int } else { 0int }
}

/// `ranges` cuts `[start, end]` into non-empty inclusive ranges, each
/// beginning right after the one before it.
pub open spec fn is_partition(ranges: Seq<(u64, u64)>, start: u64, end: u64) -> bool {
    &&& ranges.len() >= 1
    &&& ranges[0].0 == start
    &&& ranges[ranges.len() - 1].1 == end
    &&& forall|i: int| 0 <= i < ranges.len() ==> (#[trigger] ranges[i]).0 <= ranges[i].1
    &&& forall|i: int| 0 <= i < ranges.len() - 1 ==> (#[trigger] ranges[i]).1 + 1 == ranges[i + 1].0
}

/// Whether range `r` holds candidate `p`.
pub open spec fn holds(r: (u64, u64), p: int) -> bool {
    r.0 <= p <= r.1
}

proof fn chunk_step(start: int, len: int, n: int, i: int)
    requires
        1 <= n <= len,
        0 <= i < n,
    ensures
        chunk_first(start, len, n, i + 1) == chunk_first(start, len, n, i) + chunk_size(len, n, i),
        chunk_size(len, n, i) >= 1,
        chunk_first(start, len, n, i + 1) <= start + len,
        chunk_first(start, len, n, 0) == start,
        chunk_first(start, len, n, n) == start + len,
{
    let b = len / n;
    let r = len % n;
    assert((i + 1) * b == i * b + b) by (nonlinear_arith);
    assert(b >= 1 && 0 <= r < n && n * b + r == len) by (nonlinear_arith)
        requires
            1 <= n <= len,
            b == len / n,
            r == len % n,
    ;
    assert((i + 1) * b <= n * b) by (nonlinear_arith)
        requires
            i + 1 <= n,
            b >= 0,
    ;
    assert(0 * b == 0) by (nonlinear_arith);
}

/// The chunks of `[start, end]`, in ascending order.
///
/// Chunk `i` runs from `chunk_first(.., i)` to `chunk_last(.., i)`; together
/// the chunks are a partition of the interval.
pub fn partition(start: u64, end: u64, chunks: u64) -> (ranges: Vec<(u64, u64)>)
    requires
        start <= end,
        chunks >= 1,
    ensures
        ranges@.len() == chunk_count(start, end, chunks),
        forall|i: int|
            #![trigger ranges@[i]]
            0 <= i < ranges@.len() ==> {
                &&& ranges@[i].0 == chunk_first(
                    start as int,
                    interval_len(start, end),
                    chunk_count(start, end, chunks),
                    i,
                )
                &&& ranges@[i].1 == chunk_last(
                    start as int,
                    interval_len(start, end),
                    chunk_count(start, end, chunks),
                    i,
                )
                &&& ranges@[i].1 - ranges@[i].0 + 1 == chunk_size(
                    interval_len(start, end),
                    chunk_count(start, end, chunks),
                    i,
                )
            },
        is_partition(ranges@, start, end),
{
    let len: u128 = (end - start) as u128 + 1;
    let n: u64 = if (chunks as u128) > len { len as u64 } else { chunks };
    let base: u128 = len / (n as u128);
    let extra: u128 = len % (n as u128);
    let mut ranges: Vec<(u64, u64)> = Vec::new();
    let mut lo: u128 = start as u128;
    let mut i: u64 = 0;
    proof {
        chunk_step(start as int, len as int, n as int, 0);
    }
    while i < n
        invariant
            start <= end,
            len == interval_len(start, end),
            n == chunk_count(start, end, chunks),
            1 <= n <= len,
            base == len / (n as u128),
            extra == len % (n as u128),
            i <= n,
            ranges@.len() == i,
            lo == chunk_first(start as int, len as int, n as int, i as int),
            forall|k: int|
                #![trigger ranges@[k]]
                0 <= k < i ==> {
                    &&& ranges@[k].0 == chunk_first(start as int, len as int, n as int, k)
                    &&& ranges@[k].1 == chunk_last(start as int, len as int, n as int, k)
                    &&& ranges@[k].1 - ranges@[k].0 + 1 == chunk_size(len as int, n as int, k)
                    &&& ranges@[k].0 <= ranges@[k].1
                },
            forall|k: int| 0 <= k < i - 1 ==> (#[trigger] ranges@[k]).1 + 1 == ranges@[k + 1].0,
            i > 0 ==> ranges@[0].0 == start,
            i > 0 ==> ranges@[i - 1].1 + 1 == lo,
        decreases n - i,
    {
        proof {
            chunk_step(start as int, len as int, n as int, i as int);
        }
        let size: u128 = if (i as u128) < extra { base + 1 } else { base };
        let hi: u128 = lo + size - 1;
        ranges.push((lo as u64, hi as u64));
        lo = hi + 1;
        i += 1;
    }
    proof {
        chunk_step(start as int, len as int, n as int, n as int - 1);
    }
    ranges
}

proof fn earlier_ends_first(ranges: Seq<(u64, u64)>, start: u64, end: u64, i: int, j: int)
    requires
        is_partition(ranges, start, end),
        0 <= i < j < ranges.len(),
    ensures
        ranges[i].1 < ranges[j].0,
    decreases j - i,
{
    if i + 1 < j {
        earlier_ends_first(ranges, start, end, i + 1, j);
    }
}

/// In a partition, an earlier range ends before a later one begins, and
/// neither leaves the interval.
pub proof fn partition_is_ordered(ranges: Seq<(u64, u64)>, start: u64, end: u64, i: int, j: int)
    requires
        is_partition(ranges, start, end),
        0 <= i < j < ranges.len(),
    ensures
        ranges[i].1 < ranges[j].0,
        start <= ranges[i].0,
        ranges[j].1 <= end,
{
    earlier_ends_first(ranges, start, end, i, j);
    if 0 < i {
        earlier_ends_first(ranges, start, end, 0, i);
    }
    if j < ranges.len() - 1 {
        earlier_ends_first(ranges, start, end, j, ranges.len() - 1);
    }
}

/// No range of a partition leaves the interval.
pub proof fn partition_stays_inside(ranges: Seq<(u64, u64)>, start: u64, end: u64, i: int)
    requires
        is_partition(ranges, start, end),
        0 <= i < ranges.len(),
    ensures
        start <= ranges[i].0 <= ranges[i].1 <= end,
{
    if 0 < i {
        earlier_ends_first(ranges, start, end, 0, i);
    }
    if i < ranges.len() - 1 {
        earlier_ends_first(ranges, start, end, i, ranges.len() - 1);
    }
}

/// The ranges of a partition are pairwise disjoint: no candidate lies in
/// two of them.
pub proof fn partition_is_disjoint(
    ranges: Seq<(u64, u64)>,
    start: u64,
    end: u64,
    i: int,
    j: int,
    p: int,
)
    requires
        is_partition(ranges, start, end),
        0 <= i < ranges.len(),
        0 <= j < ranges.len(),
        holds(ranges[i], p),
        holds(ranges[j], p),
    ensures
        i == j,
{
    if i < j {
        partition_is_ordered(ranges, start, end, i, j);
    }
    if j < i {
        partition_is_ordered(ranges, start, end, j, i);
    }
}

proof fn find_range(ranges: Seq<(u64, u64)>, start: u64, end: u64, p: int, k: int) -> (i: int)
    requires
        is_partition(ranges, start, end),
        0 <= k < ranges.len(),
        ranges[k].0 <= p <= end,
    ensures
        k <= i < ranges.len(),
        holds(ranges[i], p),
    decreases ranges.len() - k,
{
    if p <= ranges[k].1 {
        k
    } else {
        find_range(ranges, start, end, p, k + 1)
    }
}

/// The union of a partition's ranges is exactly `[start, end]`: a
/// candidate lies in some range if and only if it lies in the interval.
pub proof fn partition_covers_interval(ranges: Seq<(u64, u64)>, start: u64, end: u64, p: int)
    requires
        is_partition(ranges, start, end),
    ensures
        (start <= p <= end) <==> (exists|i: int| 0 <= i < ranges.len() && holds(#[trigger] ranges[i], p)),
{
    if start <= p <= end {
        let i = find_range(ranges, start, end, p, 0);
        assert(holds(ranges[i], p));
    }
    if exists|i: int| 0 <= i < ranges.len() && holds(#[trigger] ranges[i], p) {
        let i = choose|i: int| 0 <= i < ranges.len() && holds(#[trigger] ranges[i], p);
        partition_stays_inside(ranges, start, end, i);
    }
}

} // verus!
