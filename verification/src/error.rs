//! The error kinds of the pipeline.

use vstd::prelude::*;

verus! {

/// Why a stage of the pipeline gave up. The kinds are flat: none wraps
/// another, and a stage hands on the first one it meets unchanged.
#[derive(Debug, Clone, Copy, PartialEq, Eq, Structural)]
pub enum AudioError {
    /// The bytes are not a well-formed stream of a supported codec.
    DecodingError,
    /// Kept for output encoding; no stage of this library produces it.
    EncodingError,
    /// Kept for input and output failures; no stage of this library produces it.
    IOError,
    /// A structural precondition does not hold: a zero sample rate, a zero
    /// group size, an empty input.
    InvalidData,
    /// A computation came out empty or degenerate: no samples, a time slice
    /// of length zero, a peak of zero to normalise by.
    ProcessingError,
}

impl AudioError {
    /// The text of each kind.
    pub open spec fn label_text(self) -> Seq<char> {
        match self {
            AudioError::DecodingError => "Decoding error"@,
            AudioError::EncodingError => "Encoding error"@,
            AudioError::IOError => "IO error"@,
            AudioError::InvalidData => "Invalid data"@,
            AudioError::ProcessingError => "Processing error"@,
        }
    }

    /// A human-readable label for logs and diagnostics.
    pub fn label(&self) -> (text: &'static str)
        ensures
            text@ == self.label_text(),
    {
        match self {
            AudioError::DecodingError => "Decoding error",
            AudioError::EncodingError => "Encoding error",
            AudioError::IOError => "IO error",
            AudioError::InvalidData => "Invalid data",
            AudioError::ProcessingError => "Processing error",
        }
    }
}

} // verus!
