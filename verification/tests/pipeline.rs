use audio_features::envelope::{normalization_peak, time_slices, POINTS_PER_SECOND};
use audio_features::error::AudioError;
use audio_features::pcm::PcmBuffer;
use audio_features::peaks::normalize_peaks;
use audio_features::sample::Sample;
use audio_features::spectrum::transform_input;
use rodio::{Decoder, Source};
use rustfft::num_complex::Complex as Bin;
use rustfft::{FftDirection, FftPlanner};
use std::io::Cursor;

fn to_samples(values: &[f32]) -> Vec<Sample> {
    values.iter().map(|x| Sample::from_bits(x.to_bits())).collect()
}

fn to_values(samples: &[Sample]) -> Vec<f32> {
    samples.iter().map(|s| f32::from_bits(s.to_bits())).collect()
}

/// A mono 16-bit PCM file in a RIFF container.
fn wav_bytes(sample_rate: u32, samples: &[i16]) -> Vec<u8> {
    let data_len = (samples.len() * 2) as u32;
    let mut bytes = Vec::new();
    bytes.extend_from_slice(b"RIFF");
    bytes.extend_from_slice(&(36 + data_len).to_le_bytes());
    bytes.extend_from_slice(b"WAVEfmt ");
    bytes.extend_from_slice(&16u32.to_le_bytes());
    bytes.extend_from_slice(&1u16.to_le_bytes());
    bytes.extend_from_slice(&1u16.to_le_bytes());
    bytes.extend_from_slice(&sample_rate.to_le_bytes());
    bytes.extend_from_slice(&(sample_rate * 2).to_le_bytes());
    bytes.extend_from_slice(&2u16.to_le_bytes());
    bytes.extend_from_slice(&16u16.to_le_bytes());
    bytes.extend_from_slice(b"data");
    bytes.extend_from_slice(&data_len.to_le_bytes());
    for s in samples {
        bytes.extend_from_slice(&s.to_le_bytes());
    }
    bytes
}

/// Decoding: the codec is the outside crate's, the library accepts or
/// refuses what it reports.
fn decode(bytes: Vec<u8>) -> Result<PcmBuffer, AudioError> {
    let decoder = Decoder::new(Cursor::new(bytes)).map_err(|_| AudioError::DecodingError)?;
    let sample_rate = decoder.sample_rate();
    let samples: Vec<f32> = decoder.collect();
    PcmBuffer::new(to_samples(&samples), sample_rate)
}

/// The envelope of a stream: the library cuts the slices and picks the peak,
/// the levels and the quotients are computed here.
fn envelope(values: &[f32], sample_rate: u32) -> Result<Vec<f32>, AudioError> {
    let pcm = PcmBuffer::new(to_samples(values), sample_rate)?;
    envelope_of(&pcm)
}

fn envelope_of(pcm: &PcmBuffer) -> Result<Vec<f32>, AudioError> {
    let stream = to_values(pcm.samples());
    let seconds = pcm.len() as f32 / pcm.sample_rate() as f32;
    let desired_points = (seconds * POINTS_PER_SECOND as f32).round() as usize;
    let mut levels = Vec::new();
    for (start, end) in time_slices(pcm.len(), desired_points)? {
        let slice = &stream[start..end];
        let mean_square = slice.iter().map(|x| x * x).sum::<f32>() / slice.len() as f32;
        levels.push(mean_square.sqrt());
    }
    let peak = normalization_peak(&to_samples(&levels))?;
    let peak = f32::from_bits(peak.to_bits());
    Ok(levels.iter().map(|v| v / peak).collect())
}

/// The magnitude spectrum of a sequence.
fn spectrum(values: &[f32]) -> Result<Vec<f32>, AudioError> {
    let input = transform_input(&to_samples(values))?;
    let mut bins: Vec<Bin<f32>> = input
        .iter()
        .map(|c| Bin::new(f32::from_bits(c.re.to_bits()), f32::from_bits(c.im.to_bits())))
        .collect();
    let mut planner = FftPlanner::new();
    planner.plan_fft(bins.len(), FftDirection::Forward).process(&mut bins);
    Ok(bins.iter().map(|b| (b.re * b.re + b.im * b.im).sqrt()).collect())
}

#[test]
fn decoding_no_bytes_fails() {
    assert!(matches!(decode(Vec::new()), Err(AudioError::DecodingError)));
}

#[test]
fn decoding_bytes_that_are_no_audio_fails() {
    let bytes = b"these bytes are not an audio container of any kind".to_vec();
    assert!(matches!(decode(bytes), Err(AudioError::DecodingError)));
}

#[test]
fn decoding_a_file_gives_its_samples_and_rate() {
    let pcm = decode(wav_bytes(8000, &[16384; 4000])).ok().unwrap();
    assert_eq!(pcm.sample_rate(), 8000);
    assert_eq!(pcm.len(), 4000);
    assert!(to_values(pcm.samples()).iter().all(|v| *v == 0.5));
}

#[test]
fn decoding_a_file_without_samples_is_refused() {
    assert!(decode(wav_bytes(8000, &[])).is_err());
}

#[test]
fn a_silent_file_has_no_envelope() {
    let pcm = decode(wav_bytes(1000, &[0; 1000])).ok().unwrap();
    assert_eq!(envelope_of(&pcm), Err(AudioError::ProcessingError));
}

#[test]
fn a_constant_two_second_file_gives_forty_points_of_one() {
    let pcm = decode(wav_bytes(8000, &[-8192; 16000])).ok().unwrap();
    let e = envelope_of(&pcm).unwrap();
    assert_eq!(e.len(), 40);
    assert!(e.iter().all(|v| *v == 1.0));
}

#[test]
fn silent_second_fails_with_a_processing_error() {
    assert_eq!(envelope(&vec![0.0; 1000], 1000), Err(AudioError::ProcessingError));
}

#[test]
fn two_constant_seconds_give_forty_points_of_one() {
    let e = envelope(&vec![0.5; 16000], 8000).unwrap();
    assert_eq!(e.len(), 40);
    for v in e {
        assert_eq!(v, 1.0);
    }
}

#[test]
fn envelope_reaches_one_and_stays_within_zero_and_one() {
    let values: Vec<f32> = (0..4410).map(|i| ((i % 97) as f32 / 97.0) * (i as f32 / 4410.0)).collect();
    let e = envelope(&values, 2205).unwrap();
    assert!(!e.is_empty());
    assert_eq!(e.iter().cloned().fold(0.0, f32::max), 1.0);
    assert!(e.iter().all(|v| (0.0..=1.0).contains(v)));
}

#[test]
fn stream_shorter_than_one_slice_fails_with_a_processing_error() {
    assert_eq!(envelope(&[0.5], 1), Err(AudioError::ProcessingError));
}

#[test]
fn stream_without_rate_is_invalid_data() {
    assert_eq!(envelope(&[0.5, 0.5], 0), Err(AudioError::InvalidData));
}

#[test]
fn constant_input_concentrates_in_the_first_bin() {
    let s = spectrum(&vec![0.5; 12]).unwrap();
    assert_eq!(s.len(), 12);
    assert!((s[0] - 6.0).abs() < 1.0e-4);
    for v in &s[1..] {
        assert!(*v >= 0.0 && *v < 1.0e-4);
    }
}

#[test]
fn spectrum_keeps_the_length_for_any_length() {
    for len in [1usize, 2, 3, 5, 7, 12, 17, 40] {
        let values: Vec<f32> = (0..len).map(|i| (i as f32 * 0.37).sin()).collect();
        let s = spectrum(&values).unwrap();
        assert_eq!(s.len(), len);
        assert!(s.iter().all(|v| *v >= 0.0));
    }
}

#[test]
fn spectrum_of_nothing_is_invalid_data() {
    assert_eq!(spectrum(&[]), Err(AudioError::InvalidData));
}

#[test]
fn full_chain_twice_gives_the_same_bits() {
    let values: Vec<f32> = (0..8000).map(|i| ((i * 7 % 113) as f32 / 113.0) - 0.5).collect();
    let run = || -> Result<Vec<u32>, AudioError> {
        let e = envelope(&values, 4000)?;
        let reduced = normalize_peaks(&to_samples(&e), 4)?;
        Ok(spectrum(&to_values(&reduced))?.iter().map(|v| v.to_bits()).collect())
    };
    let first = run().unwrap();
    assert_eq!(first.len(), 10);
    assert_eq!(run().unwrap(), first);
}
