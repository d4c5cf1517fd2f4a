//! Peak reduction: one value for each group of an amplitude sequence.

use vstd::prelude::*;
use crate::chunks::{
    chunk_bounds, chunk_count, chunk_end, chunk_start, count_chunks, lemma_chunk_count_covers,
    lemma_chunks_partition,
};
use crate::error::AudioError;
use crate::sample::{
    is_peak, lemma_peak_bounds, lemma_peak_of_numbers_attained, lemma_peak_unique, peak_of,
    Sample,
};

verus! {

/// The values of group `index` when `values` is cut into groups of
/// `group_size`.
pub open spec fn group(values: Seq<Sample>, group_size: int, index: int) -> Seq<Sample> {
    values.subrange(
        chunk_start(group_size, index),
        chunk_end(values.len() as int, group_size, index),
    )
}

/// `reduced` holds one value for each group of `values`, in order: the
/// group's peak over negative infinity.
pub open spec fn is_peak_reduction(values: Seq<Sample>, group_size: int, reduced: Seq<Sample>) -> bool {
    &&& reduced.len() == chunk_count(values.len() as int, group_size)
    &&& forall|g: int|
        0 <= g < reduced.len() ==> is_peak(
            group(values, group_size, g),
            Sample::neg_infinity(),
            #[trigger] reduced[g],
        )
}

/// The peak of `values[start..end]`: its first greatest number, or negative
/// infinity where it holds none. An empty range has no peak.
pub fn group_peak(values: &[Sample], start: usize, end: usize) -> (r: Result<Sample, AudioError>)
    requires
        start <= end <= values@.len(),
    ensures
        start == end ==> r == Err::<Sample, AudioError>(AudioError::ProcessingError),
        start < end ==> (r matches Ok(peak) && is_peak(
            values@.subrange(start as int, end as int),
            Sample::neg_infinity(),
            peak,
        )),
{
    if start == end {
        return Err(AudioError::ProcessingError);
    }
    Ok(peak_of(values, start, end, Sample::neg_infinity()))
}

/// Reduces `peaks` to one value per group of `group_size` consecutive values
/// (the last group may be shorter): the greatest of the group.
///
/// A zero `group_size` and an empty `peaks` are refused as invalid data.
/// Every other input is reduced.
pub fn normalize_peaks(peaks: &[Sample], group_size: usize) -> (r: Result<Vec<Sample>, AudioError>)
    ensures
        group_size == 0 || peaks@.len() == 0 ==> r == Err::<Vec<Sample>, AudioError>(
            AudioError::InvalidData,
        ),
        group_size > 0 && peaks@.len() > 0 ==> (r matches Ok(reduced) && is_peak_reduction(
            peaks@,
            group_size as int,
            reduced@,
        )),
{
    if group_size == 0 {
        return Err(AudioError::InvalidData);
    }
    if peaks.len() == 0 {
        return Err(AudioError::InvalidData);
    }
    let len: usize = peaks.len();
    let count: usize = count_chunks(len, group_size);
    let mut reduced: Vec<Sample> = Vec::new();
    let mut g: usize = 0;
    while g < count
        invariant
            group_size > 0,
            len == peaks@.len(),
            count == chunk_count(len as int, group_size as int),
            g <= count,
            reduced@.len() == g,
            forall|j: int|
                0 <= j < g ==> is_peak(
                    group(peaks@, group_size as int, j),
                    Sample::neg_infinity(),
                    #[trigger] reduced@[j],
                ),
        decreases count - g,
    {
        let (start, end) = chunk_bounds(len, group_size, g);
        match group_peak(peaks, start, end) {
            Ok(peak) => {
                reduced.push(peak);
            },
            // Only an empty group is refused, and no group is empty.
            Err(e) => {
                return Err(e);
            },
        }
        g = g + 1;
    }
    Ok(reduced)
}

/// The reduction of a sequence is one sequence: two results for the same
/// values and group size agree bit for bit.
pub proof fn lemma_peak_reduction_unique(
    values: Seq<Sample>,
    group_size: int,
    a: Seq<Sample>,
    b: Seq<Sample>,
)
    requires
        is_peak_reduction(values, group_size, a),
        is_peak_reduction(values, group_size, b),
    ensures
        a == b,
{
    assert forall|g: int| 0 <= g < a.len() implies a[g] == b[g] by {
        lemma_peak_unique(group(values, group_size, g), Sample::neg_infinity(), a[g], b[g]);
    }
    assert(a =~= b);
}

/// A reduction has `len / group_size` values, rounded up, and each is the
/// maximum of its group: no number of the group is above it, and if the
/// group holds a number, it is one of the group's own values.
pub proof fn lemma_peak_reduction_is_maximum(
    values: Seq<Sample>,
    group_size: int,
    reduced: Seq<Sample>,
    g: int,
)
    requires
        group_size > 0,
        is_peak_reduction(values, group_size, reduced),
        0 <= g < reduced.len(),
    ensures
        reduced.len() * group_size >= values.len() > (reduced.len() - 1) * group_size,
        0 <= chunk_start(group_size, g) < chunk_end(values.len() as int, group_size, g)
            <= values.len(),
        !reduced[g].is_nan(),
        forall|i: int|
            chunk_start(group_size, g) <= i < chunk_end(values.len() as int, group_size, g) && !(
            #[trigger] values[i]).is_nan() ==> values[i].rank() <= reduced[g].rank(),
        (exists|i: int|
            chunk_start(group_size, g) <= i < chunk_end(values.len() as int, group_size, g) && !(
            #[trigger] values[i]).is_nan()) ==> (exists|i: int|
            chunk_start(group_size, g) <= i < chunk_end(values.len() as int, group_size, g)
                && #[trigger] values[i] == reduced[g]),
{
    let len = values.len() as int;
    let start = chunk_start(group_size, g);
    let end = chunk_end(len, group_size, g);
    let members = group(values, group_size, g);
    lemma_chunk_count_covers(len, group_size);
    lemma_chunks_partition(len, group_size, g);
    lemma_peak_bounds(members, Sample::neg_infinity(), reduced[g]);
    assert forall|i: int| start <= i < end && !(#[trigger] values[i]).is_nan() implies values[i].rank()
        <= reduced[g].rank() by {
        assert(members[i - start] == values[i]);
    }
    if exists|i: int| start <= i < end && !(#[trigger] values[i]).is_nan() {
        let i = choose|i: int| start <= i < end && !(#[trigger] values[i]).is_nan();
        assert(members[i - start] == values[i]);
        lemma_peak_of_numbers_attained(members, reduced[g], i - start);
        let m = choose|m: int| 0 <= m < members.len() && #[trigger] members[m] == reduced[g];
        assert(values[start + m] == reduced[g]);
    }
}

} // verus!
