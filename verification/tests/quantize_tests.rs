use enyan_core::quantize::{quantize, quantize_sample};

#[test]
fn full_scale_maps_to_the_16_bit_extremes() {
    assert_eq!(quantize_sample(1.0f32.to_bits()), 32767);
    // -1.0 scales to exactly -32767; only values below -1.0 reach -32768
    assert_eq!(quantize_sample((-1.0f32).to_bits()), -32767);
}

#[test]
fn out_of_range_input_clamps_instead_of_wrapping() {
    assert_eq!(quantize_sample(2.0f32.to_bits()), 32767);
    assert_eq!(quantize_sample((-2.0f32).to_bits()), -32768);
    assert_eq!(quantize_sample(f32::INFINITY.to_bits()), 32767);
    assert_eq!(quantize_sample(f32::NEG_INFINITY.to_bits()), -32768);
}

#[test]
fn nan_maps_to_silence() {
    assert_eq!(quantize_sample(f32::NAN.to_bits()), 0);
    assert_eq!(quantize_sample((-f32::NAN).to_bits()), 0);
}

#[test]
fn zero_and_tiny_values_map_to_zero() {
    assert_eq!(quantize_sample(0.0f32.to_bits()), 0);
    assert_eq!(quantize_sample((-0.0f32).to_bits()), 0);
    // a subnormal scales to far below one quantization step
    assert_eq!(quantize_sample(f32::from_bits(1).to_bits()), 0);
    assert_eq!(quantize_sample(1.0e-6f32.to_bits()), 0);
}

#[test]
fn interior_values_truncate_toward_zero() {
    // 0.5 * 32767 = 16383.5, truncated toward zero
    assert_eq!(quantize_sample(0.5f32.to_bits()), 16383);
    assert_eq!(quantize_sample((-0.5f32).to_bits()), -16383);
    // 0.25 * 32767 = 8191.75
    assert_eq!(quantize_sample(0.25f32.to_bits()), 8191);
}

#[test]
fn quantize_processes_every_sample_in_order() {
    let bits: Vec<u32> = vec![
        1.0f32.to_bits(),
        (-1.0f32).to_bits(),
        0.0f32.to_bits(),
        2.0f32.to_bits(),
        f32::NAN.to_bits(),
    ];
    assert_eq!(quantize(&bits), vec![32767, -32767, 0, 32767, 0]);
}
