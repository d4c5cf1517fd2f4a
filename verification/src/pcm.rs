//! Decoded audio: a sample stream and its rate.

use vstd::prelude::*;
use crate::error::AudioError;
use crate::sample::Sample;

verus! {

/// What a [`PcmBuffer`] stands for: the samples in stream order, interleaved
/// across channels where there are several, and the number of samples per
/// second.
pub struct PcmView {
    pub samples: Seq<Sample>,
    pub sample_rate: u32,
}

/// A decoded sample stream that is fit for processing: it holds at least one
/// sample, and its rate is above zero.
pub struct PcmBuffer {
    samples: Vec<Sample>,
    sample_rate: u32,
}

impl View for PcmBuffer {
    type V = PcmView;

    closed spec fn view(&self) -> PcmView {
        PcmView { samples: self.samples@, sample_rate: self.sample_rate }
    }
}

impl PcmBuffer {
    #[verifier::type_invariant]
    spec fn well_formed(self) -> bool {
        self.samples@.len() > 0 && self.sample_rate > 0
    }

    /// Takes what a decoder reported. A rate of zero is invalid data; a
    /// stream without samples, at a rate above zero, is a processing error.
    /// Everything else is kept as it came.
    pub fn new(samples: Vec<Sample>, sample_rate: u32) -> (r: Result<PcmBuffer, AudioError>)
        ensures
            sample_rate == 0 ==> r == Err::<PcmBuffer, AudioError>(AudioError::InvalidData),
            sample_rate > 0 && samples@.len() == 0 ==> r == Err::<PcmBuffer, AudioError>(
                AudioError::ProcessingError,
            ),
            sample_rate > 0 && samples@.len() > 0 ==> (r matches Ok(pcm) && pcm@ == (PcmView {
                samples: samples@,
                sample_rate,
            })),
    {
        if sample_rate == 0 {
            return Err(AudioError::InvalidData);
        }
        if samples.len() == 0 {
            return Err(AudioError::ProcessingError);
        }
        Ok(PcmBuffer { samples, sample_rate })
    }

    /// The samples, of which there is at least one.
    pub fn samples(&self) -> (samples: &[Sample])
        ensures
            samples@ == self@.samples,
            samples@.len() > 0,
    {
        proof {
            use_type_invariant(self);
        }
        self.samples.as_slice()
    }

    /// The number of samples.
    pub fn len(&self) -> (len: usize)
        ensures
            len == self@.samples.len(),
            len > 0,
    {
        proof {
            use_type_invariant(self);
        }
        self.samples.len()
    }

    /// Samples per second, above zero.
    pub fn sample_rate(&self) -> (rate: u32)
        ensures
            rate == self@.sample_rate,
            rate > 0,
    {
        proof {
            use_type_invariant(self);
        }
        self.sample_rate
    }
}

} // verus!
