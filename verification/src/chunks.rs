//! Cutting a run of `len` items into consecutive chunks of `size`.
//!
//! Chunk `index` starts at `index * size` and holds `size` items, but for the
//! last one, which ends where the run ends and may be shorter. There are as
//! many chunks as it takes to cover the run, so none is empty.

use vstd::prelude::*;

verus! {

/// How many chunks of `size` cover `len` items: `len / size`, rounded up.
pub open spec fn chunk_count(len: int, size: int) -> int
    recommends
        len >= 0,
        size > 0,
{
    (len + size - 1) / size
}

/// The first item of chunk `index`.
pub open spec fn chunk_start(size: int, index: int) -> int {
    index * size
}

/// One past the last item of chunk `index`.
pub open spec fn chunk_end(len: int, size: int, index: int) -> int {
    if (index + 1) * size < len {
        (index + 1) * size
    } else {
        len
    }
}

/// The count is the one number of chunks that reaches the end of the run
/// without a chunk to spare.
pub proof fn lemma_chunk_count_is(len: int, size: int, count: int)
    by (nonlinear_arith)
    requires
        len >= 0,
        size > 0,
        (count - 1) * size < len <= count * size,
    ensures
        chunk_count(len, size) == count,
{
    let q = (len + size - 1) / size;
    assert(q * size <= len + size - 1 < (q + 1) * size);
    if q < count {
        assert((q + 1) * size <= (count - 1) * size + size);
    } else if q > count {
        assert(count * size + size <= q * size);
    }
}

/// The chunks reach the end of the run, and the last one is needed to do so.
pub proof fn lemma_chunk_count_covers(len: int, size: int)
    by (nonlinear_arith)
    requires
        len >= 0,
        size > 0,
    ensures
        chunk_count(len, size) >= 0,
        (chunk_count(len, size) - 1) * size < len <= chunk_count(len, size) * size,
        len > 0 ==> chunk_count(len, size) >= 1,
        chunk_count(len, size) <= len,
{
    let q = (len + size - 1) / size;
    assert(q * size <= len + size - 1 < (q + 1) * size);
    if q > len {
        assert(q * size >= q);
    }
}

/// The chunks partition the run: each starts where the one before it ended,
/// the first at 0, the last ends at `len`; each holds `size` items but the
/// last, which holds between one and `size`.
pub proof fn lemma_chunks_partition(len: int, size: int, index: int)
    by (nonlinear_arith)
    requires
        len >= 0,
        size > 0,
        0 <= index < chunk_count(len, size),
    ensures
        chunk_start(size, 0) == 0,
        0 <= chunk_start(size, index) < chunk_end(len, size, index) <= len,
        chunk_end(len, size, index) - chunk_start(size, index) <= size,
        index + 1 < chunk_count(len, size) ==> {
            &&& chunk_end(len, size, index) == chunk_start(size, index + 1)
            &&& chunk_end(len, size, index) - chunk_start(size, index) == size
        },
        index + 1 == chunk_count(len, size) ==> chunk_end(len, size, index) == len,
{
    let count = (len + size - 1) / size;
    assert(count * size <= len + size - 1 < (count + 1) * size);
    assert((index + 1) * size == index * size + size);
    assert(index * size >= 0);
    if index + 1 < count {
        assert((index + 2) * size <= count * size);
        assert((index + 2) * size == (index + 1) * size + size);
    } else {
        assert((index + 1) * size == count * size);
        assert(index * size < len);
    }
}

/// The number of chunks of `size` that cover `len` items.
pub fn count_chunks(len: usize, size: usize) -> (count: usize)
    requires
        size > 0,
    ensures
        count == chunk_count(len as int, size as int),
{
    let whole: usize = len / size;
    let rest: usize = len % size;
    proof {
        assert(len == whole * size + rest && 0 <= rest < size && whole <= len) by (nonlinear_arith)
            requires
                whole == len as int / size as int,
                rest == len as int % size as int,
                size > 0,
                len >= 0,
        ;
        if rest == 0 {
            assert((whole - 1) * size < len) by (nonlinear_arith)
                requires
                    len == whole * size,
                    size > 0,
            ;
            lemma_chunk_count_is(len as int, size as int, whole as int);
        } else {
            assert(len <= (whole + 1) * size) by (nonlinear_arith)
                requires
                    len == whole * size + rest,
                    rest < size,
            ;
            assert(whole * size < len);
            assert(whole < len) by (nonlinear_arith)
                requires
                    len == whole * size + rest,
                    rest > 0,
                    size > 0,
                    whole >= 0,
            ;
            lemma_chunk_count_is(len as int, size as int, whole + 1);
        }
    }
    if rest == 0 {
        whole
    } else {
        whole + 1
    }
}

/// Where chunk `index` starts and ends.
pub fn chunk_bounds(len: usize, size: usize, index: usize) -> (bounds: (usize, usize))
    requires
        size > 0,
        index < chunk_count(len as int, size as int),
    ensures
        bounds.0 == chunk_start(size as int, index as int),
        bounds.1 == chunk_end(len as int, size as int, index as int),
        bounds.0 < bounds.1 <= len,
{
    proof {
        lemma_chunks_partition(len as int, size as int, index as int);
    }
    let start: usize = index * size;
    let end: usize = if len - start > size {
        start + size
    } else {
        len
    };
    proof {
        assert((index + 1) * size == index * size + size) by (nonlinear_arith);
    }
    (start, end)
}

} // verus!
