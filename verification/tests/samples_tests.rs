use enyan_core::samples::{downmix_channel0, normalize_samples, FRAME_HOP};

#[test]
fn normalize_pads_to_the_next_hop_multiple() {
    let mut buf: Vec<u32> = (1..=321u32).collect();
    normalize_samples(&mut buf);
    assert_eq!(buf.len(), 640);
    for i in 0..321usize {
        assert_eq!(buf[i], (i + 1) as u32);
    }
    for i in 321..640usize {
        assert_eq!(buf[i], 0);
    }
}

#[test]
fn normalize_leaves_aligned_buffers_unchanged() {
    let mut buf: Vec<u32> = vec![5; FRAME_HOP];
    normalize_samples(&mut buf);
    assert_eq!(buf, vec![5; FRAME_HOP]);
}

#[test]
fn normalize_leaves_the_empty_buffer_empty() {
    let mut buf: Vec<u32> = Vec::new();
    normalize_samples(&mut buf);
    assert!(buf.is_empty());
}

#[test]
fn normalize_pads_a_single_sample_to_one_frame() {
    let mut buf: Vec<u32> = vec![7];
    normalize_samples(&mut buf);
    assert_eq!(buf.len(), FRAME_HOP);
    assert_eq!(buf[0], 7);
}

#[test]
fn downmix_takes_channel_zero_verbatim() {
    let interleaved: Vec<u32> = vec![10, 11, 20, 21, 30, 31];
    assert_eq!(downmix_channel0(&interleaved, 2), vec![10, 20, 30]);
}

#[test]
fn downmix_of_mono_is_identity() {
    let mono: Vec<u32> = vec![1, 2, 3];
    assert_eq!(downmix_channel0(&mono, 1), vec![1, 2, 3]);
}

#[test]
fn downmix_drops_a_trailing_partial_frame() {
    let interleaved: Vec<u32> = vec![10, 11, 20];
    assert_eq!(downmix_channel0(&interleaved, 2), vec![10]);
}
