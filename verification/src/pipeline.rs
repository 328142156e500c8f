use vstd::prelude::*;

use crate::container::{container_bytes, encode_to_container_bytes};
use crate::errors::CodecError;
use crate::grid::{truncate_quantizers, TokenGrid};
use crate::quantize::{quantize, quantized_seq};

verus! {

/// The fixed sample rate of this system's audio, in hertz.
pub const SAMPLE_RATE: u32 = 24000;

/// The byte sequence of a 16-bit mono PCM WAV file at the fixed sample rate
/// holding exactly the given samples. Named rather than spelled out: the
/// layout is the WAV container writer's business.
pub uninterp spec fn wav_encoding_of(samples: Seq<i16>) -> Seq<u8>;

#[verifier::external_type_specification]
#[verifier::external_body]
/// The error type of the WAV container writer.
pub struct ExHoundError(hound::Error);

/// Relies on hound's `WavWriter`: writing 16-bit mono PCM at a fixed sample
/// rate to an in-memory buffer yields a fixed 44-byte header (12-byte RIFF
/// chunk, 24-byte fmt chunk, 8-byte data chunk header) followed by the two
/// little-endian bytes of each sample, and depends on the samples alone.
/// WAV's size fields are 32-bit, and the writer counts data bytes in a
/// `u32` (the size field is the data byte count plus 36), so buffers beyond
/// that capacity are excluded; within it, no failure path remains on an
/// in-memory buffer.
#[verifier::external_body]
fn wav_bytes(samples: &Vec<i16>) -> (r: Result<Vec<u8>, hound::Error>)
    requires
        2 * samples@.len() + 36 <= u32::MAX,
    ensures
        r is Ok,
        r.unwrap()@ == wav_encoding_of(samples@),
        r.unwrap()@.len() == 44 + 2 * samples@.len(),
{
    let spec = hound::WavSpec {
        channels: 1,
        sample_rate: SAMPLE_RATE,
        bits_per_sample: 16,
        sample_format: hound::SampleFormat::Int,
    };
    let mut cursor = std::io::Cursor::new(Vec::new());
    let mut writer = hound::WavWriter::new(&mut cursor, spec)?;
    for s in samples.iter() {
        writer.write_sample(*s)?;
    }
    writer.finalize()?;
    Ok(cursor.into_inner())
}

/// The tail of the decode path: quantizes a decoded sample buffer (float bit
/// patterns) to 16-bit words and emits the complete WAV byte sequence. Every
/// buffer that fits WAV's 32-bit size fields yields its waveform; the whole
/// byte sequence is built in memory, so nothing partial is ever handed out.
pub fn waveform_from_samples(pcm_bits: &Vec<u32>) -> (r: Result<Vec<u8>, CodecError>)
    requires
        2 * pcm_bits@.len() + 36 <= u32::MAX,
    ensures
        r is Ok,
        r.unwrap()@ == wav_encoding_of(quantized_seq(pcm_bits@)),
        r.unwrap()@.len() == 44 + 2 * pcm_bits@.len(),
{
    let words = quantize(pcm_bits);
    match wav_bytes(&words) {
        Ok(b) => Ok(b),
        Err(_) => Err(CodecError::IOFailure),
    }
}

/// The tail of the encode path: applies the bandwidth target to a token grid
/// fresh from the encoder model, then serializes the kept rows into a
/// container byte sequence. The first failing stage decides the error:
/// an unusable target is `InvalidBandwidthTarget`, then an oversized token
/// among the kept rows is `ValueOutOfRange`.
pub fn encode_grid_to_container(g: &TokenGrid, target_quantizers: usize) -> (r: Result<
    Vec<u8>,
    CodecError,
>)
    requires
        g.wf(),
    ensures
        r is Ok <==> (1 <= target_quantizers <= g.n_q && forall|k: int|
            0 <= k < target_quantizers * g.t ==> g.tokens@[k] <= 0xffff),
        !(1 <= target_quantizers <= g.n_q) ==> r == Err::<Vec<u8>, CodecError>(
            CodecError::InvalidBandwidthTarget,
        ),
        r is Err ==> (r == Err::<Vec<u8>, CodecError>(CodecError::InvalidBandwidthTarget) || r
            == Err::<Vec<u8>, CodecError>(CodecError::ValueOutOfRange)),
        r is Ok ==> r.unwrap()@ == container_bytes(
            target_quantizers as int,
            g.t as int,
            g.tokens@.subrange(0, target_quantizers * g.t),
        ),
        r is Ok ==> r.unwrap()@.len() == 8 + 2 * (target_quantizers * g.t),
{
    let kept = match truncate_quantizers(g, target_quantizers) {
        Ok(kept) => kept,
        Err(e) => {
            return Err(e);
        },
    };
    proof {
        vstd::arithmetic::mul::lemma_mul_inequality(
            target_quantizers as int,
            g.n_q as int,
            g.t as int,
        );
        assert forall|k: int| 0 <= k < target_quantizers * g.t implies kept.tokens@[k]
            == g.tokens@[k] by {
            assert(g.tokens@.subrange(0, target_quantizers as int * g.t as int)[k]
                == g.tokens@[k]);
        }
    }
    encode_to_container_bytes(&kept)
}

} // verus!
