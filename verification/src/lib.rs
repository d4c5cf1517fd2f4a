//! Feature extraction for encoded audio: the exact, integer side.
//!
//! Amplitudes are single-precision values. This library carries each of them
//! as its IEEE 754 bit pattern ([`sample::Sample`]) and proves everything that
//! can be decided on those patterns and on lengths: how a sample stream is cut
//! into time slices, which value of a group is its peak, when a stage rejects
//! its input and with which error. Arithmetic on the amplitudes themselves
//! (squares, roots, quotients, the Fourier transform) is left to the caller.

pub mod chunks;
pub mod envelope;
pub mod error;
pub mod pcm;
pub mod peaks;
pub mod sample;
pub mod spectrum;

pub use crate::envelope::{chunk_size, normalization_peak, time_slices, POINTS_PER_SECOND};
pub use crate::error::AudioError;
pub use crate::pcm::PcmBuffer;
pub use crate::peaks::{group_peak, normalize_peaks};
pub use crate::sample::Sample;
pub use crate::spectrum::{transform_input, Complex};
