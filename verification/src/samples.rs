use vstd::prelude::*;

verus! {

/// The number of raw samples the neural codec consumes per emitted time
/// step. Sample buffers handed to the encoder must be a multiple of this
/// long.
pub const FRAME_HOP: usize = 320;

/// A buffer of mono audio samples, each stored as the raw bit pattern of a
/// 32-bit IEEE 754 float. Silence is the all-zero pattern (positive zero).
/// The padding a normalized buffer gains is trailing silence and is kept
/// through a decode round trip on purpose.
pub type SampleBits = u32;

/// The length a sample buffer of length `l` has after normalization.
pub open spec fn aligned_len(l: int) -> int {
    l + (FRAME_HOP - l % (FRAME_HOP as int)) % (FRAME_HOP as int)
}

/// The normalized length is a multiple of the frame hop, and pads by less
/// than one full frame.
pub proof fn lemma_aligned_len_bounds(l: int)
    requires
        l >= 0,
    ensures
        aligned_len(l) % (FRAME_HOP as int) == 0,
        l <= aligned_len(l) < l + FRAME_HOP,
{
    let h = FRAME_HOP as int;
    let r = l % h;
    if r == 0 {
        assert(aligned_len(l) == l);
    } else {
        assert(aligned_len(l) == l + h - r);
        assert((l + h - r) % h == 0) by {
            vstd::arithmetic::div_mod::lemma_fundamental_div_mod(l, h);
            assert(l + h - r == h * (l / h) + h);
            assert(h * (l / h) + h == h * (l / h + 1)) by {
                vstd::arithmetic::mul::lemma_mul_is_distributive_add(h, l / h, 1);
            }
            vstd::arithmetic::div_mod::lemma_mod_multiples_basic(l / h + 1, h);
        }
    }
}

/// The normalized length is the smallest multiple of the frame hop that is
/// at least the original length.
pub proof fn lemma_aligned_len_smallest(l: int, m: int)
    requires
        l >= 0,
        m >= l,
        m % (FRAME_HOP as int) == 0,
    ensures
        aligned_len(l) <= m,
{
    let h = FRAME_HOP as int;
    lemma_aligned_len_bounds(l);
    if m < aligned_len(l) {
        // two distinct multiples of the hop cannot lie within one frame
        assert((aligned_len(l) - m) % h == 0) by {
            vstd::arithmetic::div_mod::lemma_sub_mod_noop(aligned_len(l), m, h);
        }
        assert(0 < aligned_len(l) - m < h);
        vstd::arithmetic::div_mod::lemma_small_mod((aligned_len(l) - m) as nat, h as nat);
        assert(false);
    }
}

/// Conditions a raw mono sample buffer for the neural codec: appends silence
/// until the length is a multiple of the frame hop. A buffer that is already
/// aligned (including the empty buffer) is left unchanged.
pub fn normalize_samples(samples: &mut Vec<SampleBits>)
    ensures
        final(samples)@.len() == aligned_len(old(samples)@.len() as int),
        final(samples)@.subrange(0, old(samples)@.len() as int) == old(samples)@,
        forall|i: int|
            old(samples)@.len() <= i < final(samples)@.len() ==> final(samples)@[i] == 0u32,
{
    let l = samples.len();
    let rem = l % FRAME_HOP;
    let padding = (FRAME_HOP - rem) % FRAME_HOP;
    let mut i: usize = 0;
    while i < padding
        invariant
            i <= padding,
            samples@.len() == old(samples)@.len() + i,
            samples@.subrange(0, old(samples)@.len() as int) == old(samples)@,
            forall|j: int| old(samples)@.len() <= j < samples@.len() ==> samples@[j] == 0u32,
        decreases padding - i,
    {
        samples.push(0u32);
        i += 1;
        proof {
            assert(samples@.subrange(0, old(samples)@.len() as int) =~= old(samples)@);
        }
    }
}

/// Collapses a multi-channel interleaved buffer to mono by taking channel 0
/// of every frame verbatim; the other channels are discarded, not averaged.
pub fn downmix_channel0(samples: &Vec<SampleBits>, channels: usize) -> (r: Vec<SampleBits>)
    requires
        channels >= 1,
    ensures
        r@.len() == samples@.len() as int / channels as int,
        forall|i: int| 0 <= i < r@.len() ==> r@[i] == samples@[i * channels],
{
    let n = samples.len() / channels;
    let mut out: Vec<SampleBits> = Vec::new();
    let mut i: usize = 0;
    proof {
        vstd::arithmetic::div_mod::lemma_fundamental_div_mod(samples@.len() as int, channels as int);
        vstd::arithmetic::div_mod::lemma_mod_bound(samples@.len() as int, channels as int);
        vstd::arithmetic::mul::lemma_mul_is_commutative(n as int, channels as int);
    }
    while i < n
        invariant
            i <= n,
            channels >= 1,
            n == samples@.len() as int / channels as int,
            n * channels <= samples@.len(),
            samples@.len() <= usize::MAX,
            out@.len() == i,
            forall|j: int| 0 <= j < i ==> out@[j] == samples@[j * channels],
        decreases n - i,
    {
        proof {
            vstd::arithmetic::mul::lemma_mul_inequality(i as int, i + 1, channels as int);
            vstd::arithmetic::mul::lemma_mul_inequality(i + 1, n as int, channels as int);
            vstd::arithmetic::mul::lemma_mul_is_distributive_add(channels as int, i as int, 1);
            vstd::arithmetic::mul::lemma_mul_nonnegative(i as int, channels as int);
            vstd::arithmetic::mul::lemma_mul_is_commutative(i as int, channels as int);
            vstd::arithmetic::mul::lemma_mul_is_commutative(i + 1, channels as int);
        }
        out.push(samples[i * channels]);
        i += 1;
    }
    out
}

} // verus!
