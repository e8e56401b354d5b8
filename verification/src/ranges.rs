//! Range planning: partition `[0, length)` into chunk-sized byte ranges.

use vstd::prelude::*;

verus! {

/// A half-open byte range `[start, end)` of a remote resource.
///
/// Every planned range is non-empty (`start < end`); ranges are produced
/// and must be assembled in ascending `start` order.
#[derive(Clone, Copy, PartialEq, Eq, Structural, Debug)]
pub struct ByteRange {
    pub start: usize,
    pub end: usize,
}

/// Where the `i`-th planned range begins.
pub open spec fn range_start(chunk_size: int, i: int) -> int {
    i * chunk_size
}

/// Where the `i`-th planned range ends: one chunk further, clipped to the
/// total length.
pub open spec fn range_end(length: int, chunk_size: int, i: int) -> int {
    if (i + 1) * chunk_size <= length {
        (i + 1) * chunk_size
    } else {
        length
    }
}

/// How many ranges a resource of `length` bytes is split into:
/// `ceil(length / chunk_size)`, and 0 when `length == 0`.
pub open spec fn range_count(length: int, chunk_size: int) -> int
    recommends
        chunk_size > 0,
{
    (length + chunk_size - 1) / chunk_size
}

/// The whole planned sequence of ranges is pinned down by these three
/// spec functions.
pub open spec fn is_range_plan(r: Seq<ByteRange>, length: int, chunk_size: int) -> bool {
    &&& r.len() == range_count(length, chunk_size)
    &&& forall|i: int|
        0 <= i < r.len() ==> (#[trigger] r[i]).start == range_start(chunk_size, i) && r[i].end
            == range_end(length, chunk_size, i)
}

/// Produce the ordered sequence of half-open ranges covering `[0, length)`:
/// `floor(length / chunk_size)` full chunks, then a shorter trailing range
/// holding the remainder, appended only when non-empty.
pub fn plan_ranges(length: usize, chunk_size: usize) -> (r: Vec<ByteRange>)
    requires
        chunk_size > 0,
    ensures
        is_range_plan(r@, length as int, chunk_size as int),
{
    let full: usize = length / chunk_size;
    proof {
        lemma_count_splits(length as int, chunk_size as int);
    }
    let mut r: Vec<ByteRange> = Vec::new();
    let mut i: usize = 0;
    while i < full
        invariant
            chunk_size > 0,
            full == length as int / chunk_size as int,
            i <= full,
            full * chunk_size <= length,
            r@.len() == i,
            forall|j: int|
                0 <= j < i ==> (#[trigger] r@[j]).start == range_start(chunk_size as int, j)
                    && r@[j].end == range_end(length as int, chunk_size as int, j),
        decreases full - i,
    {
        proof {
            assert((i + 1) * chunk_size <= full * chunk_size) by (nonlinear_arith)
                requires
                    i < full,
                    chunk_size > 0,
            ;
            assert(i * chunk_size == (i + 1) * chunk_size - chunk_size) by (nonlinear_arith);
        }
        r.push(ByteRange { start: i * chunk_size, end: (i + 1) * chunk_size });
        i = i + 1;
    }
    let rem: usize = length % chunk_size;
    if rem > 0 {
        proof {
            assert(full * chunk_size + rem == length) by {
                vstd::arithmetic::div_mod::lemma_fundamental_div_mod(
                    length as int,
                    chunk_size as int,
                );
            }
            assert((full + 1) * chunk_size == full * chunk_size + chunk_size) by (nonlinear_arith);
        }
        r.push(ByteRange { start: full * chunk_size, end: length });
    }
    r
}

/// The exec computation `floor + (1 if remainder else 0)` agrees with the
/// ceiling form of `range_count`.
proof fn lemma_count_splits(length: int, chunk_size: int)
    requires
        length >= 0,
        chunk_size > 0,
    ensures
        length % chunk_size == 0 ==> range_count(length, chunk_size) == length / chunk_size,
        length % chunk_size != 0 ==> range_count(length, chunk_size) == length / chunk_size + 1,
        length / chunk_size * chunk_size <= length,
{
    vstd::arithmetic::div_mod::lemma_fundamental_div_mod(length, chunk_size);
    vstd::arithmetic::div_mod::lemma_mod_bound(length, chunk_size);
    let q = length / chunk_size;
    let m = length % chunk_size;
    assert(q * chunk_size == length - m) by (nonlinear_arith)
        requires
            length == chunk_size * q + m,
    ;
    if m == 0 {
        vstd::arithmetic::div_mod::lemma_fundamental_div_mod_converse(
            length + chunk_size - 1,
            chunk_size,
            q,
            chunk_size - 1,
        );
    } else {
        assert((q + 1) * chunk_size == q * chunk_size + chunk_size) by (nonlinear_arith);
        vstd::arithmetic::div_mod::lemma_fundamental_div_mod_converse(
            length + chunk_size - 1,
            chunk_size,
            q + 1,
            m - 1,
        );
    }
}

/// Every planned range is non-empty: in particular a length that is an
/// exact multiple of the chunk size yields no zero-length trailing range.
pub proof fn lemma_ranges_nonempty(r: Seq<ByteRange>, length: int, chunk_size: int, i: int)
    requires
        chunk_size > 0,
        length >= 0,
        is_range_plan(r, length, chunk_size),
        0 <= i < r.len(),
    ensures
        r[i].start < r[i].end,
{
    lemma_count_splits(length, chunk_size);
    let q = length / chunk_size;
    vstd::arithmetic::div_mod::lemma_fundamental_div_mod(length, chunk_size);
    vstd::arithmetic::div_mod::lemma_mod_bound(length, chunk_size);
    assert(i * chunk_size < length) by (nonlinear_arith)
        requires
            chunk_size > 0,
            0 <= i,
            length % chunk_size == 0 ==> i < length / chunk_size,
            length % chunk_size != 0 ==> i < length / chunk_size + 1,
            length == chunk_size * (length / chunk_size) + length % chunk_size,
            0 <= length % chunk_size < chunk_size,
    ;
    assert(i * chunk_size < (i + 1) * chunk_size) by (nonlinear_arith)
        requires
            chunk_size > 0,
    ;
}

/// The planned ranges are contiguous: each begins where the previous one
/// ended, the first begins at 0, and the last ends at `length`.
pub proof fn lemma_ranges_contiguous(r: Seq<ByteRange>, length: int, chunk_size: int)
    requires
        chunk_size > 0,
        length >= 0,
        is_range_plan(r, length, chunk_size),
    ensures
        r.len() > 0 ==> r[0].start == 0,
        r.len() > 0 ==> r[r.len() - 1].end == length,
        forall|i: int| 0 <= i < r.len() - 1 ==> #[trigger] r[i].end == r[i + 1].start,
{
    lemma_count_splits(length, chunk_size);
    vstd::arithmetic::div_mod::lemma_fundamental_div_mod(length, chunk_size);
    vstd::arithmetic::div_mod::lemma_mod_bound(length, chunk_size);
    let n = r.len() as int;
    if n > 0 {
        assert(r[0].start == 0) by (nonlinear_arith)
            requires
                r[0].start == range_start(chunk_size, 0),
        ;
        assert((n - 1 + 1) * chunk_size >= length ==> r[n - 1].end == length);
        assert(n * chunk_size >= length) by (nonlinear_arith)
            requires
                chunk_size > 0,
                length % chunk_size == 0 ==> n == length / chunk_size,
                length % chunk_size != 0 ==> n == length / chunk_size + 1,
                length == chunk_size * (length / chunk_size) + length % chunk_size,
                0 <= length % chunk_size < chunk_size,
        ;
    }
    assert forall|i: int| 0 <= i < r.len() - 1 implies #[trigger] r[i].end == r[i + 1].start by {
        assert((i + 1) * chunk_size <= length) by (nonlinear_arith)
            requires
                chunk_size > 0,
                i + 1 < n,
                length % chunk_size == 0 ==> n == length / chunk_size,
                length % chunk_size != 0 ==> n == length / chunk_size + 1,
                length == chunk_size * (length / chunk_size) + length % chunk_size,
                0 <= length % chunk_size < chunk_size,
        ;
    }
}

/// Coverage: every byte offset of `[0, length)` falls in exactly one
/// planned range, namely range `offset / chunk_size`; together with
/// contiguity this says the plan covers `[0, length)` with no gaps and
/// no overlaps.
pub proof fn lemma_ranges_cover(r: Seq<ByteRange>, length: int, chunk_size: int, offset: int)
    requires
        chunk_size > 0,
        length >= 0,
        is_range_plan(r, length, chunk_size),
        0 <= offset < length,
    ensures
        0 <= offset / chunk_size < r.len(),
        r[offset / chunk_size].start <= offset < r[offset / chunk_size].end,
        forall|i: int|
            0 <= i < r.len() && i != offset / chunk_size ==> !(#[trigger] r[i].start <= offset
                && offset < r[i].end),
{
    lemma_count_splits(length, chunk_size);
    vstd::arithmetic::div_mod::lemma_fundamental_div_mod(length, chunk_size);
    vstd::arithmetic::div_mod::lemma_mod_bound(length, chunk_size);
    vstd::arithmetic::div_mod::lemma_fundamental_div_mod(offset, chunk_size);
    vstd::arithmetic::div_mod::lemma_mod_bound(offset, chunk_size);
    let k = offset / chunk_size;
    assert(k * chunk_size <= offset < (k + 1) * chunk_size && 0 <= k) by (nonlinear_arith)
        requires
            chunk_size > 0,
            0 <= offset,
            k * chunk_size == offset - offset % chunk_size,
            0 <= offset % chunk_size < chunk_size,
    ;
    assert(k < r.len()) by (nonlinear_arith)
        requires
            chunk_size > 0,
            offset < length,
            k * chunk_size <= offset,
            length % chunk_size == 0 ==> r.len() == length / chunk_size,
            length % chunk_size != 0 ==> r.len() == length / chunk_size + 1,
            length == chunk_size * (length / chunk_size) + length % chunk_size,
            0 <= length % chunk_size < chunk_size,
    ;
    assert forall|i: int|
        0 <= i < r.len() && i != k implies !(#[trigger] r[i].start <= offset && offset
        < r[i].end) by {
        if i < k {
            assert((i + 1) * chunk_size <= k * chunk_size) by (nonlinear_arith)
                requires
                    chunk_size > 0,
                    i < k,
            ;
        } else {
            assert(k < i ==> (k + 1) * chunk_size <= i * chunk_size) by (nonlinear_arith)
                requires
                    chunk_size > 0,
            ;
        }
    }
}

} // verus!
