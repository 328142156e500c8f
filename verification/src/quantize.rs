use vstd::arithmetic::div_mod::{lemma_basic_div, lemma_div_pos_is_pos};
use vstd::arithmetic::mul::{lemma_mul_inequality, lemma_mul_nonnegative, lemma_mul_upper_bound};
use vstd::arithmetic::power2::{lemma2_to64, lemma_pow2_pos, lemma_pow2_strictly_increases, pow2};
use vstd::bits::lemma_u64_shr_is_div;
use vstd::prelude::*;

verus! {

// A 32-bit IEEE 754 float, taken apart arithmetically from its bit pattern:
// sign (top bit), exponent field (next 8 bits), fraction field (low 23 bits).

/// The 8-bit exponent field of a float bit pattern.
pub open spec fn f32_exp_field(bits: u32) -> int {
    ((bits / 0x80_0000) % 256) as int
}

/// The 23-bit fraction field of a float bit pattern.
pub open spec fn f32_frac_field(bits: u32) -> int {
    (bits % 0x80_0000) as int
}

/// Whether the sign bit of a float bit pattern is set.
pub open spec fn f32_is_negative(bits: u32) -> bool {
    bits >= 0x8000_0000
}

/// Whether the bit pattern encodes a NaN.
pub open spec fn f32_is_nan(bits: u32) -> bool {
    f32_exp_field(bits) == 255 && f32_frac_field(bits) != 0
}

/// The sample's magnitude scaled by 32767 and truncated toward zero:
/// `floor(|sample| * 32767)`. A normal number with exponent field `e` and
/// fraction field `m` has magnitude `(m + 2^23) * 2^(e - 150)`; a subnormal
/// has magnitude `m * 2^(-149)`. An infinity is mapped to a value beyond the
/// clamp range on either side.
pub open spec fn scaled_mag(bits: u32) -> int {
    let e = f32_exp_field(bits);
    let m = f32_frac_field(bits);
    if e == 255 {
        0x8000_0000
    } else if e == 0 {
        (m * 32767) / (pow2(149) as int)
    } else if e < 150 {
        ((m + 0x80_0000) * 32767) / (pow2((150 - e) as nat) as int)
    } else {
        (m + 0x80_0000) * 32767 * (pow2((e - 150) as nat) as int)
    }
}

/// What one decoded sample quantizes to: the sample scaled by 32767, clamped
/// to `[-32768, 32767]`, truncated toward zero. The scaling and truncation
/// are exact (they use the real value the bit pattern denotes, not a rounded
/// intermediate). NaN maps to silence (0) by explicit policy, since feeding
/// it onward would have no defined meaning; out-of-range and infinite inputs
/// clamp, they never wrap.
pub open spec fn quantize_spec(bits: u32) -> int {
    if f32_is_nan(bits) {
        0
    } else if !f32_is_negative(bits) {
        if scaled_mag(bits) > 32767 {
            32767
        } else {
            scaled_mag(bits)
        }
    } else {
        if scaled_mag(bits) > 32768 {
            -32768
        } else {
            -scaled_mag(bits)
        }
    }
}

/// The scaled magnitude is never negative.
proof fn lemma_scaled_mag_nonneg(bits: u32)
    ensures
        scaled_mag(bits) >= 0,
{
    let e = f32_exp_field(bits);
    let m = f32_frac_field(bits);
    if e == 255 {
    } else if e == 0 {
        lemma_pow2_pos(149);
        lemma_mul_nonnegative(m, 32767);
        lemma_div_pos_is_pos(m * 32767, pow2(149) as int);
    } else if e < 150 {
        lemma_pow2_pos((150 - e) as nat);
        lemma_mul_nonnegative(m + 0x80_0000, 32767);
        lemma_div_pos_is_pos((m + 0x80_0000) * 32767, pow2((150 - e) as nat) as int);
    } else {
        lemma_pow2_pos((e - 150) as nat);
        lemma_mul_nonnegative(m + 0x80_0000, 32767);
        lemma_mul_nonnegative((m + 0x80_0000) * 32767, pow2((e - 150) as nat) as int);
    }
}

/// Every quantized sample fits in a signed 16-bit word.
pub proof fn lemma_quantize_spec_range(bits: u32)
    ensures
        -32768 <= quantize_spec(bits) <= 32767,
{
    lemma_scaled_mag_nonneg(bits);
}

/// The sequence of quantized samples of a buffer of float bit patterns.
pub open spec fn quantized_seq(bits: Seq<u32>) -> Seq<i16> {
    Seq::new(bits.len(), |i: int| quantize_spec(bits[i]) as i16)
}

/// Quantizes one decoded floating-point sample (given as its bit pattern)
/// to a signed 16-bit waveform sample.
pub fn quantize_sample(bits: u32) -> (r: i16)
    ensures
        r as int == quantize_spec(bits),
{
    let e: u32 = (bits / 0x80_0000) % 256;
    let m: u32 = bits % 0x80_0000;
    let neg: bool = bits >= 0x8000_0000;
    if e == 255 {
        // NaN maps to silence; an infinity saturates like any out-of-range value
        if m != 0 {
            return 0;
        }
        return if neg {
            -32768
        } else {
            32767
        };
    }
    if e >= 150 {
        // magnitude at least 2^23, far beyond the clamp range
        proof {
            lemma_pow2_pos((e - 150) as nat);
            lemma_mul_inequality(0x80_0000, m as int + 0x80_0000, 32767);
            lemma_mul_inequality(1, pow2((e - 150) as nat) as int, (m as int + 0x80_0000) * 32767);
            vstd::arithmetic::mul::lemma_mul_is_commutative(
                pow2((e - 150) as nat) as int,
                (m as int + 0x80_0000) * 32767,
            );
        }
        return if neg {
            -32768
        } else {
            32767
        };
    }
    let mant: u64 = if e == 0 {
        m as u64
    } else {
        (m + 0x80_0000) as u64
    };
    let shift: u32 = if e == 0 {
        149
    } else {
        150 - e
    };
    proof {
        lemma_mul_upper_bound(mant as int, 0xff_ffff, 32767, 32767);
        lemma_mul_nonnegative(mant as int, 32767);
    }
    let prod: u64 = mant * 32767;
    let mag: u64 = if shift >= 64 {
        proof {
            lemma2_to64();
            vstd::arithmetic::power2::lemma2_to64_rest();
            lemma_pow2_strictly_increases(39, shift as nat);
            assert(prod <= 0xff_ffff * 32767);
            assert(pow2(39) == 0x80_0000_0000);
            assert((prod as int) < pow2(shift as nat) as int);
            lemma_basic_div(prod as int, pow2(shift as nat) as int);
        }
        0
    } else {
        proof {
            lemma_u64_shr_is_div(prod, shift as u64);
        }
        prod >> (shift as u64)
    };
    proof {
        assert(mag == scaled_mag(bits));
    }
    if neg {
        if mag >= 32768 {
            -32768
        } else {
            let v = mag as i16;
            -v
        }
    } else {
        if mag >= 32767 {
            32767
        } else {
            mag as i16
        }
    }
}

/// Quantizes a whole decoded sample buffer, one 16-bit word per sample, in
/// order.
pub fn quantize(samples: &Vec<u32>) -> (r: Vec<i16>)
    ensures
        r@ == quantized_seq(samples@),
        r@.len() == samples@.len(),
        forall|i: int| 0 <= i < samples@.len() ==> r@[i] as int == quantize_spec(samples@[i]),
{
    let n = samples.len();
    let mut out: Vec<i16> = Vec::new();
    let mut i: usize = 0;
    while i < n
        invariant
            i <= n,
            n == samples@.len(),
            out@.len() == i,
            forall|j: int| 0 <= j < i ==> out@[j] as int == quantize_spec(samples@[j]),
        decreases n - i,
    {
        out.push(quantize_sample(samples[i]));
        i += 1;
    }
    proof {
        assert forall|j: int| 0 <= j < n implies out@[j] == quantized_seq(samples@)[j] by {
            lemma_quantize_spec_range(samples@[j]);
        }
        assert(out@ =~= quantized_seq(samples@));
    }
    out
}

} // verus!
