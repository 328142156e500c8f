use enyan_core::container::{decode_from_container, encode_to_container_bytes};
use enyan_core::errors::CodecError;
use enyan_core::grid::TokenGrid;

#[test]
fn round_trip_small_grid() {
    let g = TokenGrid { n_q: 2, t: 3, tokens: vec![1, 2, 3, 40000, 5, 65535] };
    let bytes = encode_to_container_bytes(&g).unwrap();
    assert_eq!(bytes.len(), 8 + 2 * 6);
    let back = decode_from_container(&bytes).unwrap();
    assert_eq!(back.n_q, 2);
    assert_eq!(back.t, 3);
    assert_eq!(back.tokens, vec![1, 2, 3, 40000, 5, 65535]);
}

#[test]
fn encode_layout_is_little_endian_row_major() {
    let g = TokenGrid { n_q: 1, t: 2, tokens: vec![0x1234, 0xabcd] };
    let bytes = encode_to_container_bytes(&g).unwrap();
    assert_eq!(
        bytes,
        vec![1, 0, 0, 0, 2, 0, 0, 0, 0x34, 0x12, 0xcd, 0xab]
    );
}

#[test]
fn encode_rejects_oversized_token() {
    let g = TokenGrid { n_q: 1, t: 2, tokens: vec![7, 65536] };
    assert_eq!(encode_to_container_bytes(&g), Err(CodecError::ValueOutOfRange));
}

#[test]
fn decode_rejects_incomplete_header() {
    let bytes: Vec<u8> = vec![1, 0, 0, 0, 2, 0];
    assert_eq!(
        decode_from_container(&bytes).map(|g| g.n_q),
        Err(CodecError::ShortInput)
    );
}

#[test]
fn decode_rejects_short_body() {
    // header declares n_q = 1, t = 10: the body needs 20 bytes
    let mut bytes: Vec<u8> = vec![1, 0, 0, 0, 10, 0, 0, 0];
    bytes.extend(std::iter::repeat(0u8).take(19));
    assert_eq!(
        decode_from_container(&bytes).map(|g| g.n_q),
        Err(CodecError::ShortInput)
    );
    bytes.push(0);
    let g = decode_from_container(&bytes).unwrap();
    assert_eq!(g.n_q, 1);
    assert_eq!(g.t, 10);
    assert_eq!(g.tokens, vec![0u32; 10]);
}

#[test]
fn decode_accepts_a_header_declaring_no_quantizers() {
    // 8 header bytes, empty body: the dimensions are kept as declared
    let bytes: Vec<u8> = vec![0, 0, 0, 0, 5, 0, 0, 0];
    let g = decode_from_container(&bytes).unwrap();
    assert_eq!(g.n_q, 0);
    assert_eq!(g.t, 5);
    assert!(g.tokens.is_empty());
}

#[test]
fn decode_ignores_trailing_bytes() {
    let g = TokenGrid { n_q: 1, t: 1, tokens: vec![9] };
    let mut bytes = encode_to_container_bytes(&g).unwrap();
    bytes.push(0xff);
    let back = decode_from_container(&bytes).unwrap();
    assert_eq!(back.tokens, vec![9]);
}
