use enyan_core::errors::CodecError;
use enyan_core::grid::{truncate_quantizers, TokenGrid};

fn grid_8_by_100() -> TokenGrid {
    let mut tokens = Vec::new();
    for q in 0..8u32 {
        for c in 0..100u32 {
            tokens.push(q * 1000 + c);
        }
    }
    TokenGrid { n_q: 8, t: 100, tokens }
}

#[test]
fn truncate_keeps_the_first_rows_verbatim() {
    let g = grid_8_by_100();
    let out = truncate_quantizers(&g, 4).unwrap();
    assert_eq!(out.n_q, 4);
    assert_eq!(out.t, 100);
    assert_eq!(out.tokens.len(), 400);
    for q in 0..4usize {
        for c in 0..100usize {
            assert_eq!(out.tokens[q * 100 + c], g.tokens[q * 100 + c]);
        }
    }
}

#[test]
fn truncate_rejects_zero_target() {
    let g = grid_8_by_100();
    assert!(matches!(
        truncate_quantizers(&g, 0),
        Err(CodecError::InvalidBandwidthTarget)
    ));
}

#[test]
fn truncate_rejects_target_beyond_available() {
    let g = grid_8_by_100();
    assert!(matches!(
        truncate_quantizers(&g, 9),
        Err(CodecError::InvalidBandwidthTarget)
    ));
}

#[test]
fn truncate_to_full_width_is_identity() {
    let g = grid_8_by_100();
    let out = truncate_quantizers(&g, 8).unwrap();
    assert_eq!(out.tokens, g.tokens);
}
