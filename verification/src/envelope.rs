//! The amplitude envelope: how the sample stream is cut into time slices,
//! and what the slices' levels are normalised by.
//!
//! An envelope has about [`POINTS_PER_SECOND`] points for each second of
//! audio. The caller rounds `seconds * POINTS_PER_SECOND` to the number of
//! points it wants and takes the level (the root of the mean square) of each
//! slice that [`time_slices`] hands out; [`normalization_peak`] then picks the
//! level that all of them are divided by.

use vstd::prelude::*;
use crate::chunks::{
    chunk_bounds, chunk_count, chunk_end, chunk_start, count_chunks, lemma_chunk_count_covers,
    lemma_chunk_count_is,
};
use crate::error::AudioError;
use crate::sample::{
    is_first_greatest, is_peak, lemma_peak_attained, lemma_peak_bounds, lemma_peak_unique,
    peak_of, Sample,
};

verus! {

/// Envelope points per second of audio.
pub const POINTS_PER_SECOND: usize = 20;

/// The number of samples in a time slice: the whole stream where no point is
/// wanted, else the stream's length divided by the points wanted, rounded
/// down.
pub open spec fn slice_size(sample_count: int, desired_points: int) -> int
    recommends
        sample_count >= 0,
        desired_points >= 0,
{
    if desired_points == 0 {
        sample_count
    } else {
        sample_count / desired_points
    }
}

/// The size of a time slice, refused as a processing error where it comes
/// out as zero (the stream is shorter than one slice, or empty).
pub fn chunk_size(sample_count: usize, desired_points: usize) -> (r: Result<usize, AudioError>)
    ensures
        slice_size(sample_count as int, desired_points as int) == 0 ==> r == Err::<
            usize,
            AudioError,
        >(AudioError::ProcessingError),
        slice_size(sample_count as int, desired_points as int) != 0 ==> (r matches Ok(size)
            && size == slice_size(sample_count as int, desired_points as int)),
{
    let size: usize = if desired_points == 0 {
        sample_count
    } else {
        sample_count / desired_points
    };
    if size == 0 {
        return Err(AudioError::ProcessingError);
    }
    Ok(size)
}

/// `slices` are the time slices of a stream of `sample_count` samples cut by
/// `size`: consecutive half-open index ranges, in order.
pub open spec fn are_slices(sample_count: int, size: int, slices: Seq<(usize, usize)>) -> bool {
    &&& slices.len() == chunk_count(sample_count, size)
    &&& forall|i: int|
        0 <= i < slices.len() ==> {
            &&& (#[trigger] slices[i]).0 == chunk_start(size, i)
            &&& slices[i].1 == chunk_end(sample_count, size, i)
        }
}

/// A stream has one way to be cut: two sequences of slices for the same
/// length and size are the same sequence.
pub proof fn lemma_slices_unique(
    sample_count: int,
    size: int,
    a: Seq<(usize, usize)>,
    b: Seq<(usize, usize)>,
)
    requires
        are_slices(sample_count, size, a),
        are_slices(sample_count, size, b),
    ensures
        a == b,
{
    assert forall|i: int| 0 <= i < a.len() implies a[i] == b[i] by {
        assert(a[i].0 == b[i].0 && a[i].1 == b[i].1);
    }
    assert(a =~= b);
}

/// The time slices of a stream of `sample_count` samples for an envelope of
/// about `desired_points` points, as index ranges `(start, end)`.
///
/// Refused, as a processing error, exactly where the slice size is zero.
/// Otherwise there is at least one slice, and none is empty.
pub fn time_slices(sample_count: usize, desired_points: usize) -> (r: Result<
    Vec<(usize, usize)>,
    AudioError,
>)
    ensures
        slice_size(sample_count as int, desired_points as int) == 0 ==> r == Err::<
            Vec<(usize, usize)>,
            AudioError,
        >(AudioError::ProcessingError),
        slice_size(sample_count as int, desired_points as int) != 0 ==> (r matches Ok(slices)
            && are_slices(
            sample_count as int,
            slice_size(sample_count as int, desired_points as int),
            slices@,
        ) && slices@.len() >= 1),
{
    let size: usize = match chunk_size(sample_count, desired_points) {
        Ok(size) => size,
        Err(e) => {
            return Err(e);
        },
    };
    let count: usize = count_chunks(sample_count, size);
    let mut slices: Vec<(usize, usize)> = Vec::new();
    let mut i: usize = 0;
    while i < count
        invariant
            size > 0,
            count == chunk_count(sample_count as int, size as int),
            i <= count,
            slices@.len() == i,
            forall|j: int|
                0 <= j < i ==> {
                    &&& (#[trigger] slices@[j]).0 == chunk_start(size as int, j)
                    &&& slices@[j].1 == chunk_end(sample_count as int, size as int, j)
                },
        decreases count - i,
    {
        let bounds = chunk_bounds(sample_count, size, i);
        slices.push(bounds);
        i = i + 1;
    }
    proof {
        lemma_slice_count(sample_count as int, desired_points as int);
    }
    Ok(slices)
}

/// How many points an envelope has. Where a slice size exists there is at
/// least one point; where `desired_points` were asked for there are at least
/// that many and fewer than twice that many, and exactly that many where
/// `desired_points` divides the stream's length.
pub proof fn lemma_slice_count(sample_count: int, desired_points: int)
    requires
        sample_count >= 0,
        desired_points >= 0,
        slice_size(sample_count, desired_points) != 0,
    ensures
        chunk_count(sample_count, slice_size(sample_count, desired_points)) >= 1,
        desired_points == 0 ==> chunk_count(
            sample_count,
            slice_size(sample_count, desired_points),
        ) == 1,
        desired_points > 0 ==> desired_points <= chunk_count(
            sample_count,
            slice_size(sample_count, desired_points),
        ) < 2 * desired_points,
        desired_points > 0 && sample_count % desired_points == 0 ==> chunk_count(
            sample_count,
            slice_size(sample_count, desired_points),
        ) == desired_points,
{
    let size = slice_size(sample_count, desired_points);
    let count = chunk_count(sample_count, size);
    if desired_points == 0 {
        lemma_chunk_count_is(sample_count, size, 1);
    } else {
        let rest = sample_count % desired_points;
        assert(sample_count == size * desired_points + rest && 0 <= rest < desired_points && size
            >= 0) by (nonlinear_arith)
            requires
                size == sample_count / desired_points,
                rest == sample_count % desired_points,
                desired_points > 0,
                sample_count >= 0,
        ;
        lemma_chunk_count_covers(sample_count, size);
        assert(desired_points <= count < 2 * desired_points) by (nonlinear_arith)
            requires
                sample_count == size * desired_points + rest,
                0 <= rest < desired_points,
                size >= 1,
                (count - 1) * size < sample_count <= count * size,
        {
            if count < desired_points {
                assert(count * size <= (desired_points - 1) * size);
            }
            if count >= 2 * desired_points {
                assert((count - 1) * size >= (2 * desired_points - 1) * size);
                assert((2 * desired_points - 1) * size == size * desired_points + (desired_points
                    - 1) * size);
                assert((desired_points - 1) * size >= desired_points - 1);
            }
        }
        if rest == 0 {
            assert((desired_points - 1) * size < sample_count) by (nonlinear_arith)
                requires
                    sample_count == size * desired_points,
                    size >= 1,
            ;
            assert(sample_count <= desired_points * size) by (nonlinear_arith)
                requires
                    sample_count == size * desired_points,
            ;
            lemma_chunk_count_is(sample_count, size, desired_points);
        }
    }
}

/// The level that the slices' levels are divided by. It is the greatest of `levels`, taken over a floor of zero,
/// so that a NaN and a negative level never win.
///
/// Refused, as a processing error, where there is no level at all or where
/// the greatest is zero (silence). Otherwise the result is one of the
/// levels, it is a number above zero, and no number among the levels is
/// above it: the quotient of each by it lies between zero and one, and one
/// is reached.
pub fn normalization_peak(levels: &[Sample]) -> (r: Result<Sample, AudioError>)
    ensures
        r is Err <==> levels@.len() == 0 || is_peak(levels@, Sample::zero(), Sample::zero()),
        r matches Err(e) ==> e == AudioError::ProcessingError,
        r matches Ok(peak) ==> {
            &&& is_peak(levels@, Sample::zero(), peak)
            &&& !peak.is_nan()
            &&& peak.rank() > 0
            &&& exists|i: int| 0 <= i < levels@.len() && #[trigger] levels@[i] == peak
            &&& forall|i: int|
                0 <= i < levels@.len() && !(#[trigger] levels@[i]).is_nan() ==> levels@[i].rank()
                    <= peak.rank()
        },
{
    if levels.len() == 0 {
        return Err(AudioError::ProcessingError);
    }
    let peak = peak_of(levels, 0, levels.len(), Sample::zero());
    proof {
        assert(levels@.subrange(0, levels@.len() as int) =~= levels@);
        lemma_peak_bounds(levels@, Sample::zero(), peak);
    }
    if peak.is_zero() {
        proof {
            lemma_zero_peak_is_floor(levels@, peak);
        }
        return Err(AudioError::ProcessingError);
    }
    proof {
        if is_peak(levels@, Sample::zero(), Sample::zero()) {
            lemma_peak_unique(levels@, Sample::zero(), peak, Sample::zero());
        }
        lemma_peak_attained(levels@, Sample::zero(), peak);
    }
    Ok(peak)
}

/// Over a floor of positive zero, a peak that is a zero is the floor itself.
proof fn lemma_zero_peak_is_floor(levels: Seq<Sample>, peak: Sample)
    requires
        is_peak(levels, Sample::zero(), peak),
        peak.is_zero(),
    ensures
        peak == Sample::zero(),
{
    let t = seq![Sample::zero()] + levels;
    let k = choose|k: int| is_first_greatest(t, k) && #[trigger] t[k] == peak;
    assert(t[0] == Sample::zero());
    if k > 0 {
        assert(t[0].rank() < t[k].rank());
    }
}

} // verus!
