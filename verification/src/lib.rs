//! Core of a neural-codec audio pipeline: sample alignment, token-grid
//! bandwidth selection, the binary token container format, 16-bit waveform
//! quantization, and the text preprocessing used before speech synthesis.

pub mod container;
pub mod errors;
pub mod grid;
pub mod pipeline;
pub mod quantize;
pub mod samples;
pub mod speech;
pub mod text;
