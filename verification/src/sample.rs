//! Single-precision amplitudes as bit patterns, and their order.
//!
//! A [`Sample`] holds the 32 bits of an IEEE 754 binary32 value: one sign
//! bit, eight exponent bits, twenty-three fraction bits. Its order is read
//! off the pattern: the low 31 bits are the magnitude, and the sign bit
//! mirrors it. A pattern whose magnitude lies above that of infinity is not a
//! number and takes no part in the order.

use vstd::prelude::*;

verus! {

/// The sign bit of a pattern.
pub const SIGN_BIT: u32 = 0x8000_0000;

/// The pattern of positive infinity: all exponent bits, no fraction bit.
pub const INFINITY_BITS: u32 = 0x7f80_0000;

/// The pattern of negative infinity.
pub const NEG_INFINITY_BITS: u32 = 0xff80_0000;

/// One single-precision value, by its bit pattern.
#[derive(Debug, Clone, Copy, PartialEq, Eq, Structural)]
pub struct Sample {
    pub bits: u32,
}

impl Sample {
    /// The low 31 bits: the pattern without its sign.
    pub open spec fn magnitude(self) -> int {
        if self.bits >= SIGN_BIT {
            self.bits - SIGN_BIT
        } else {
            self.bits as int
        }
    }

    /// The sign bit is set.
    pub open spec fn sign(self) -> bool {
        self.bits >= SIGN_BIT
    }

    /// The pattern is not a number.
    pub open spec fn is_nan_spec(self) -> bool {
        self.magnitude() > INFINITY_BITS
    }

    /// Where the value stands among the numbers: `a` is below `b` as
    /// single-precision values exactly when neither is a NaN and
    /// `a.rank() < b.rank()`. Both zeros have rank 0.
    pub open spec fn rank(self) -> int {
        if self.sign() {
            -self.magnitude()
        } else {
            self.magnitude()
        }
    }

    /// The value is a zero, of either sign.
    pub open spec fn is_zero_spec(self) -> bool {
        self.magnitude() == 0
    }

    /// Strictly below, as single-precision values compare: false as soon as
    /// one side is a NaN.
    pub open spec fn lt_spec(self, other: Sample) -> bool {
        !self.is_nan_spec() && !other.is_nan_spec() && self.rank() < other.rank()
    }

    /// The greater of two values, passing over a NaN: where `other` is a
    /// NaN the result is `self`, where only `self` is one it is `other`.
    /// Of two values that compare equal, `self` is kept.
    pub open spec fn max_spec(self, other: Sample) -> Sample {
        if other.is_nan_spec() {
            self
        } else if self.is_nan_spec() {
            other
        } else if self.rank() < other.rank() {
            other
        } else {
            self
        }
    }

    /// Positive zero.
    pub open spec fn zero_spec() -> Sample {
        Sample { bits: 0 }
    }

    /// Negative infinity, below every number.
    pub open spec fn neg_infinity_spec() -> Sample {
        Sample { bits: NEG_INFINITY_BITS }
    }

    /// The sample with the given bit pattern.
    pub fn from_bits(bits: u32) -> (s: Sample)
        ensures
            s.bits == bits,
    {
        Sample { bits }
    }

    /// The bit pattern.
    pub fn to_bits(self) -> (bits: u32)
        ensures
            bits == self.bits,
    {
        self.bits
    }

    #[verifier::when_used_as_spec(zero_spec)]
    pub fn zero() -> (s: Sample)
        ensures
            s == Sample::zero_spec(),
    {
        Sample { bits: 0 }
    }

    #[verifier::when_used_as_spec(neg_infinity_spec)]
    pub fn neg_infinity() -> (s: Sample)
        ensures
            s == Sample::neg_infinity_spec(),
    {
        Sample { bits: NEG_INFINITY_BITS }
    }

    fn magnitude_bits(self) -> (m: u32)
        ensures
            m == self.magnitude(),
    {
        if self.bits >= SIGN_BIT {
            self.bits - SIGN_BIT
        } else {
            self.bits
        }
    }

    #[verifier::when_used_as_spec(is_nan_spec)]
    pub fn is_nan(self) -> (r: bool)
        ensures
            r == self.is_nan_spec(),
    {
        self.magnitude_bits() > INFINITY_BITS
    }

    #[verifier::when_used_as_spec(is_zero_spec)]
    pub fn is_zero(self) -> (r: bool)
        ensures
            r == self.is_zero_spec(),
    {
        self.magnitude_bits() == 0
    }

    #[verifier::when_used_as_spec(lt_spec)]
    pub fn lt(self, other: Sample) -> (r: bool)
        ensures
            r == self.lt_spec(other),
    {
        if self.is_nan() || other.is_nan() {
            return false;
        }
        let a: u32 = self.magnitude_bits();
        let b: u32 = other.magnitude_bits();
        if self.bits >= SIGN_BIT {
            if other.bits >= SIGN_BIT {
                b < a
            } else {
                a != 0 || b != 0
            }
        } else {
            other.bits < SIGN_BIT && a < b
        }
    }

    #[verifier::when_used_as_spec(max_spec)]
    pub fn max(self, other: Sample) -> (r: Sample)
        ensures
            r == self.max_spec(other),
    {
        if other.is_nan() {
            self
        } else if self.is_nan() {
            other
        } else if self.lt(other) {
            other
        } else {
            self
        }
    }
}

/// `t[k]` is a number, no number of `t` is above it, and every number before
/// it is strictly below it.
pub open spec fn is_first_greatest(t: Seq<Sample>, k: int) -> bool {
    &&& 0 <= k < t.len()
    &&& !t[k].is_nan()
    &&& forall|j: int| 0 <= j < t.len() && !(#[trigger] t[j]).is_nan() ==> t[j].rank() <= t[k].rank()
    &&& forall|j: int| 0 <= j < k && !(#[trigger] t[j]).is_nan() ==> t[j].rank() < t[k].rank()
}

/// `peak` is what is left of `floor` after taking the greater with each value
/// of `values` in turn: the first greatest number among `floor` followed by
/// `values`.
pub open spec fn is_peak(values: Seq<Sample>, floor: Sample, peak: Sample) -> bool {
    exists|k: int|
        is_first_greatest(seq![floor] + values, k) && #[trigger] (seq![floor] + values)[k] == peak
}

/// One more value: the peak of the longer sequence is the greater of the old
/// peak and the new value.
pub proof fn lemma_peak_push(values: Seq<Sample>, floor: Sample, peak: Sample, next: Sample)
    requires
        is_peak(values, floor, peak),
    ensures
        is_peak(values.push(next), floor, peak.max(next)),
{
    let t = seq![floor] + values;
    let u = seq![floor] + values.push(next);
    assert(u =~= t.push(next));
    let k = choose|k: int| is_first_greatest(t, k) && #[trigger] t[k] == peak;
    if !next.is_nan() && peak.rank() < next.rank() {
        let last = t.len() as int;
        assert(u[last] == next);
        assert forall|j: int| 0 <= j < u.len() && !(#[trigger] u[j]).is_nan() implies u[j].rank()
            <= u[last].rank() by {
            if j < last {
                assert(u[j] == t[j]);
            }
        }
        assert forall|j: int| 0 <= j < last && !(#[trigger] u[j]).is_nan() implies u[j].rank()
            < u[last].rank() by {
            assert(u[j] == t[j]);
        }
        assert(is_first_greatest(u, last));
    } else {
        assert(u[k] == peak);
        assert forall|j: int| 0 <= j < u.len() && !(#[trigger] u[j]).is_nan() implies u[j].rank()
            <= u[k].rank() by {
            if j < t.len() {
                assert(u[j] == t[j]);
            }
        }
        assert forall|j: int| 0 <= j < k && !(#[trigger] u[j]).is_nan() implies u[j].rank()
            < u[k].rank() by {
            assert(u[j] == t[j]);
        }
        assert(is_first_greatest(u, k));
    }
}

/// Of no values at all, the peak is the floor.
pub proof fn lemma_peak_empty(floor: Sample)
    requires
        !floor.is_nan(),
    ensures
        is_peak(Seq::<Sample>::empty(), floor, floor),
{
    let t = seq![floor] + Seq::<Sample>::empty();
    assert(t[0] == floor);
    assert(is_first_greatest(t, 0));
}

/// A sequence has one peak: whoever takes the peak of the same values over
/// the same floor gets the same bits.
pub proof fn lemma_peak_unique(values: Seq<Sample>, floor: Sample, a: Sample, b: Sample)
    requires
        is_peak(values, floor, a),
        is_peak(values, floor, b),
    ensures
        a == b,
{
    let t = seq![floor] + values;
    let ka = choose|k: int| is_first_greatest(t, k) && #[trigger] t[k] == a;
    let kb = choose|k: int| is_first_greatest(t, k) && #[trigger] t[k] == b;
    if ka < kb {
        assert(t[ka].rank() < t[kb].rank());
        assert(t[kb].rank() <= t[ka].rank());
    } else if kb < ka {
        assert(t[kb].rank() < t[ka].rank());
        assert(t[ka].rank() <= t[kb].rank());
    }
}

/// The peak is a number, it is at least the floor, and no number among the
/// values is above it.
pub proof fn lemma_peak_bounds(values: Seq<Sample>, floor: Sample, peak: Sample)
    requires
        !floor.is_nan(),
        is_peak(values, floor, peak),
    ensures
        !peak.is_nan(),
        floor.rank() <= peak.rank(),
        forall|i: int| 0 <= i < values.len() && !(#[trigger] values[i]).is_nan() ==> values[i].rank() <= peak.rank(),
{
    let t = seq![floor] + values;
    let k = choose|k: int| is_first_greatest(t, k) && #[trigger] t[k] == peak;
    assert(t[0] == floor);
    assert forall|i: int| 0 <= i < values.len() && !(#[trigger] values[i]).is_nan() implies values[i].rank()
        <= peak.rank() by {
        assert(t[i + 1] == values[i]);
    }
}

/// A peak that is not the floor itself is one of the values, bit for bit.
pub proof fn lemma_peak_attained(values: Seq<Sample>, floor: Sample, peak: Sample)
    requires
        is_peak(values, floor, peak),
        peak != floor,
    ensures
        exists|i: int| 0 <= i < values.len() && #[trigger] values[i] == peak,
{
    let t = seq![floor] + values;
    let k = choose|k: int| is_first_greatest(t, k) && #[trigger] t[k] == peak;
    assert(t[0] == floor);
    assert(k >= 1);
    assert(values[k - 1] == t[k]);
}

/// Over the floor of negative infinity, a sequence that holds a number has
/// its peak among its own values.
pub proof fn lemma_peak_of_numbers_attained(values: Seq<Sample>, peak: Sample, at: int)
    requires
        is_peak(values, Sample::neg_infinity(), peak),
        0 <= at < values.len(),
        !values[at].is_nan(),
    ensures
        exists|i: int| 0 <= i < values.len() && #[trigger] values[i] == peak,
{
    let floor = Sample::neg_infinity();
    if peak == floor {
        lemma_peak_bounds(values, floor, peak);
        assert(values[at].rank() <= peak.rank());
        assert(values[at] == peak);
    } else {
        lemma_peak_attained(values, floor, peak);
    }
}

/// The greater of `floor` and each of `values[start..end]` in turn.
pub fn peak_of(values: &[Sample], start: usize, end: usize, floor: Sample) -> (peak: Sample)
    requires
        start <= end <= values@.len(),
        !floor.is_nan(),
    ensures
        is_peak(values@.subrange(start as int, end as int), floor, peak),
{
    let mut peak = floor;
    let mut i: usize = start;
    proof {
        lemma_peak_empty(floor);
        assert(values@.subrange(start as int, start as int) =~= Seq::<Sample>::empty());
    }
    while i < end
        invariant
            start <= i <= end <= values@.len(),
            is_peak(values@.subrange(start as int, i as int), floor, peak),
        decreases end - i,
    {
        let next = values[i];
        proof {
            lemma_peak_push(values@.subrange(start as int, i as int), floor, peak, next);
            assert(values@.subrange(start as int, i as int).push(next) =~= values@.subrange(
                start as int,
                i + 1,
            ));
        }
        peak = peak.max(next);
        i = i + 1;
    }
    peak
}

} // verus!
