//! The spectral stage: the buffer that the Fourier transform works on.
//!
//! The transform takes a complex sequence and leaves a complex sequence of
//! the same length in its place. Its input is the real sequence with every
//! imaginary part at zero.

use vstd::prelude::*;
use crate::error::AudioError;
use crate::sample::Sample;

verus! {

/// A complex value: real and imaginary part.
#[derive(Debug, Clone, Copy, PartialEq, Eq, Structural)]
pub struct Complex {
    pub re: Sample,
    pub im: Sample,
}

/// `values` as complex numbers on the real axis.
pub open spec fn on_real_axis(values: Seq<Sample>) -> Seq<Complex> {
    Seq::new(values.len(), |i: int| Complex { re: values[i], im: Sample::zero() })
}

/// The input of a forward transform of `values`: one bin for each value, in
/// order, with the value as its real part and positive zero as its
/// imaginary part. An empty sequence has no transform and is refused as
/// invalid data.
pub fn transform_input(values: &[Sample]) -> (r: Result<Vec<Complex>, AudioError>)
    ensures
        values@.len() == 0 ==> r == Err::<Vec<Complex>, AudioError>(AudioError::InvalidData),
        values@.len() > 0 ==> (r matches Ok(bins) && bins@ == on_real_axis(values@)),
{
    if values.len() == 0 {
        return Err(AudioError::InvalidData);
    }
    let mut bins: Vec<Complex> = Vec::new();
    let mut i: usize = 0;
    while i < values.len()
        invariant
            i <= values@.len(),
            bins@.len() == i,
            forall|j: int|
                0 <= j < i ==> #[trigger] bins@[j] == (Complex {
                    re: values@[j],
                    im: Sample::zero(),
                }),
        decreases values@.len() - i,
    {
        bins.push(Complex { re: values[i], im: Sample::zero() });
        i = i + 1;
    }
    assert(bins@ =~= on_real_axis(values@));
    Ok(bins)
}

} // verus!
