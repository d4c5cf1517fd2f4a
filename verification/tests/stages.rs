use audio_features::error::AudioError;
use audio_features::pcm::PcmBuffer;
use audio_features::sample::Sample;
use audio_features::spectrum::{transform_input, Complex};

fn stream_of(values: &[f32]) -> Vec<Sample> {
    values.iter().map(|x| Sample::from_bits(x.to_bits())).collect()
}

#[test]
fn labels_of_the_error_kinds() {
    assert_eq!(AudioError::DecodingError.label(), "Decoding error");
    assert_eq!(AudioError::EncodingError.label(), "Encoding error");
    assert_eq!(AudioError::IOError.label(), "IO error");
    assert_eq!(AudioError::InvalidData.label(), "Invalid data");
    assert_eq!(AudioError::ProcessingError.label(), "Processing error");
}

#[test]
fn error_kinds_compare_by_kind() {
    assert_eq!(AudioError::InvalidData, AudioError::InvalidData);
    assert_ne!(AudioError::InvalidData, AudioError::ProcessingError);
    assert_ne!(AudioError::DecodingError, AudioError::EncodingError);
}

#[test]
fn pcm_buffer_keeps_what_the_decoder_reported() {
    let samples = stream_of(&[0.5, -0.5, 0.25]);
    let pcm = PcmBuffer::new(samples.clone(), 44100).ok().unwrap();
    assert_eq!(pcm.samples(), &samples[..]);
    assert_eq!(pcm.len(), 3);
    assert_eq!(pcm.sample_rate(), 44100);
}

#[test]
fn pcm_buffer_with_zero_rate_is_invalid_data() {
    let r = PcmBuffer::new(stream_of(&[0.5, 0.25]), 0);
    assert!(matches!(r, Err(AudioError::InvalidData)));
    let r = PcmBuffer::new(Vec::new(), 0);
    assert!(matches!(r, Err(AudioError::InvalidData)));
}

#[test]
fn pcm_buffer_without_samples_is_a_processing_error() {
    let r = PcmBuffer::new(Vec::new(), 8000);
    assert!(matches!(r, Err(AudioError::ProcessingError)));
}

#[test]
fn transform_input_lies_on_the_real_axis() {
    let values = stream_of(&[0.5, -1.0, 0.0]);
    let bins = transform_input(&values).unwrap();
    assert_eq!(
        bins,
        vec![
            Complex { re: values[0], im: Sample::zero() },
            Complex { re: values[1], im: Sample::zero() },
            Complex { re: values[2], im: Sample::zero() },
        ]
    );
}

#[test]
fn transform_input_has_the_length_of_the_values() {
    for len in 1usize..20 {
        let values = stream_of(&vec![0.5; len]);
        assert_eq!(transform_input(&values).unwrap().len(), len);
    }
}

#[test]
fn transform_input_of_nothing_is_invalid_data() {
    assert_eq!(transform_input(&[]), Err(AudioError::InvalidData));
}
