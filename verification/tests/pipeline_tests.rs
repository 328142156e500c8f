use enyan_core::errors::CodecError;
use enyan_core::grid::TokenGrid;
use enyan_core::pipeline::{encode_grid_to_container, waveform_from_samples};
use enyan_core::samples::normalize_samples;

#[test]
fn encode_path_on_a_stub_grid_has_the_exact_container_size() {
    // a sample buffer of length 321 normalizes to 640: one extra frame
    let mut buf: Vec<u32> = vec![0; 321];
    normalize_samples(&mut buf);
    assert_eq!(buf.len(), 640);
    // the encoder model is simulated by a fixed grid of 8 quantizers
    let t = 2usize;
    let g = TokenGrid { n_q: 8, t, tokens: (0..(8 * t) as u32).collect() };
    let bytes = encode_grid_to_container(&g, 4).unwrap();
    assert_eq!(bytes.len(), 8 + 4 * t * 2);
}

#[test]
fn encode_path_rejects_a_zero_bandwidth_target() {
    let g = TokenGrid { n_q: 8, t: 2, tokens: vec![0; 16] };
    assert_eq!(
        encode_grid_to_container(&g, 0),
        Err(CodecError::InvalidBandwidthTarget)
    );
}

#[test]
fn encode_path_rejects_an_oversized_token_in_a_kept_row() {
    let mut tokens = vec![0u32; 16];
    tokens[3] = 0x1_0000;
    let g = TokenGrid { n_q: 8, t: 2, tokens };
    assert_eq!(
        encode_grid_to_container(&g, 4),
        Err(CodecError::ValueOutOfRange)
    );
}

#[test]
fn encode_path_ignores_an_oversized_token_in_a_dropped_row() {
    let mut tokens = vec![0u32; 16];
    tokens[15] = 0x1_0000;
    let g = TokenGrid { n_q: 8, t: 2, tokens };
    assert!(encode_grid_to_container(&g, 4).is_ok());
}

#[test]
fn waveform_bytes_are_a_readable_wav_of_the_quantized_samples() {
    let bits: Vec<u32> = vec![1.0f32.to_bits(), (-1.0f32).to_bits(), 0.0f32.to_bits()];
    let bytes = waveform_from_samples(&bits).unwrap();
    assert_eq!(bytes.len(), 44 + 2 * 3);
    assert_eq!(&bytes[0..4], b"RIFF");
    assert_eq!(&bytes[8..12], b"WAVE");
    let reader = hound::WavReader::new(std::io::Cursor::new(bytes)).unwrap();
    let spec = reader.spec();
    assert_eq!(spec.channels, 1);
    assert_eq!(spec.sample_rate, 24000);
    assert_eq!(spec.bits_per_sample, 16);
    let samples: Vec<i16> = reader.into_samples::<i16>().map(|s| s.unwrap()).collect();
    assert_eq!(samples, vec![32767, -32767, 0]);
}
