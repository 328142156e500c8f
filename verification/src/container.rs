use vstd::arithmetic::div_mod::{
    lemma_basic_div, lemma_div_denominator, lemma_fundamental_div_mod,
};
use vstd::arithmetic::mul::lemma_mul_upper_bound;
use vstd::prelude::*;

use crate::errors::CodecError;
use crate::grid::TokenGrid;

verus! {

/// The four little-endian bytes of a 32-bit header field.
pub open spec fn u32_le_bytes(n: int) -> Seq<u8> {
    seq![
        (n % 256) as u8,
        ((n / 256) % 256) as u8,
        ((n / 65536) % 256) as u8,
        ((n / 16777216) % 256) as u8,
    ]
}

/// The unsigned 32-bit value stored little-endian at offset `i` of `b`.
pub open spec fn le32_at(b: Seq<u8>, i: int) -> int {
    b[i] + 256 * b[i + 1] + 65536 * b[i + 2] + 16777216 * b[i + 3]
}

/// The unsigned 16-bit value stored little-endian at offset `i` of `b`.
pub open spec fn le16_at(b: Seq<u8>, i: int) -> int {
    b[i] + 256 * b[i + 1]
}

/// The body of a container: each token as two little-endian bytes, in
/// row-major token order.
pub open spec fn body_bytes(tokens: Seq<u32>) -> Seq<u8> {
    Seq::new(
        2 * tokens.len(),
        |i: int|
            if i % 2 == 0 {
                (tokens[i / 2] % 256) as u8
            } else {
                ((tokens[i / 2] / 256) % 256) as u8
            },
    )
}

/// The full container layout: two little-endian 32-bit header fields
/// (`n_q`, then `t`), followed by the `n_q * t` 16-bit token words.
/// There is no magic number, checksum or version field.
pub open spec fn container_bytes(n_q: int, t: int, tokens: Seq<u32>) -> Seq<u8> {
    u32_le_bytes(n_q) + u32_le_bytes(t) + body_bytes(tokens)
}

/// What a byte sequence parses to: the two header dimensions and the token
/// words, or `None` when the sequence is shorter than the header or the
/// declared body require. Trailing bytes beyond the declared body are
/// ignored.
pub open spec fn parsed_container(b: Seq<u8>) -> Option<(int, int, Seq<u32>)> {
    if b.len() < 8 {
        None
    } else {
        let n_q = le32_at(b, 0);
        let t = le32_at(b, 4);
        if b.len() < 8 + 2 * (n_q * t) {
            None
        } else {
            Some((n_q, t, Seq::new((n_q * t) as nat, |k: int| le16_at(b, 8 + 2 * k) as u32)))
        }
    }
}

/// Appends the four little-endian bytes of `n` to `out`.
fn push_u32_le(out: &mut Vec<u8>, n: u32)
    ensures
        final(out)@ == old(out)@ + u32_le_bytes(n as int),
{
    out.push((n % 256) as u8);
    out.push(((n / 256) % 256) as u8);
    out.push(((n / 65536) % 256) as u8);
    out.push(((n / 16777216) % 256) as u8);
    proof {
        assert(out@ =~= old(out)@ + u32_le_bytes(n as int));
    }
}

/// Reads the little-endian 32-bit value at offset `off` of `bytes`.
fn read_u32_le(bytes: &Vec<u8>, off: usize) -> (n: u32)
    requires
        off + 4 <= bytes@.len(),
    ensures
        n as int == le32_at(bytes@, off as int),
{
    let _l = bytes.len();
    let b0 = bytes[off] as u32;
    let b1 = bytes[off + 1] as u32;
    let b2 = bytes[off + 2] as u32;
    let b3 = bytes[off + 3] as u32;
    b0 + 256 * b1 + 65536 * b2 + 16777216 * b3
}

/// Serializes a token grid into the container byte layout. Every token must
/// fit in a 16-bit word; a token above `0xffff` is rejected explicitly
/// rather than silently truncated, and nothing is emitted in that case.
pub fn encode_to_container_bytes(g: &TokenGrid) -> (r: Result<Vec<u8>, CodecError>)
    requires
        g.wf(),
    ensures
        r is Ok <==> (forall|k: int| 0 <= k < g.tokens@.len() ==> g.tokens@[k] <= 0xffff),
        r is Err ==> r == Err::<Vec<u8>, CodecError>(CodecError::ValueOutOfRange),
        r is Ok ==> r.unwrap()@ == container_bytes(g.n_q as int, g.t as int, g.tokens@),
{
    let n = g.tokens.len();
    let mut k: usize = 0;
    while k < n
        invariant
            k <= n,
            n == g.tokens@.len(),
            forall|j: int| 0 <= j < k ==> g.tokens@[j] <= 0xffff,
        decreases n - k,
    {
        if g.tokens[k] > 0xffff {
            return Err(CodecError::ValueOutOfRange);
        }
        k += 1;
    }
    let mut out: Vec<u8> = Vec::new();
    push_u32_le(&mut out, g.n_q as u32);
    push_u32_le(&mut out, g.t as u32);
    let ghost header: Seq<u8> = u32_le_bytes(g.n_q as int) + u32_le_bytes(g.t as int);
    let mut k: usize = 0;
    while k < n
        invariant
            k <= n,
            n == g.tokens@.len(),
            forall|j: int| 0 <= j < n ==> g.tokens@[j] <= 0xffff,
            out@ == header + body_bytes(g.tokens@.subrange(0, k as int)),
        decreases n - k,
    {
        let tok = g.tokens[k];
        out.push((tok % 256) as u8);
        out.push((tok / 256) as u8);
        k += 1;
        proof {
            assert(out@ =~= header + body_bytes(g.tokens@.subrange(0, k as int)));
        }
    }
    proof {
        assert(g.tokens@.subrange(0, n as int) =~= g.tokens@);
        assert(out@ =~= container_bytes(g.n_q as int, g.t as int, g.tokens@));
    }
    Ok(out)
}

/// Parses a container byte sequence back into a token grid, reading the
/// 8-byte header first and then exactly `n_q * t` 16-bit words, row-major.
/// A sequence shorter than either requires is rejected as `ShortInput`.
pub fn decode_from_container(bytes: &Vec<u8>) -> (r: Result<TokenGrid, CodecError>)
    ensures
        r is Ok <==> parsed_container(bytes@) is Some,
        r is Err ==> r == Err::<TokenGrid, CodecError>(CodecError::ShortInput),
        r is Ok ==> {
            let (n_q, t, tokens) = parsed_container(bytes@).unwrap();
            let g = r.unwrap();
            &&& g.wf()
            &&& g.n_q == n_q
            &&& g.t == t
            &&& g.tokens@ == tokens
        },
{
    let blen = bytes.len();
    if blen < 8 {
        return Err(CodecError::ShortInput);
    }
    let n_q = read_u32_le(bytes, 0);
    let t = read_u32_le(bytes, 4);
    proof {
        lemma_mul_upper_bound(n_q as int, 0xffff_ffff, t as int, 0xffff_ffff);
    }
    let needed: u128 = 8 + 2 * ((n_q as u128) * (t as u128));
    if (blen as u128) < needed {
        return Err(CodecError::ShortInput);
    }
    let count: usize = (n_q as usize) * (t as usize);
    let mut tokens: Vec<u32> = Vec::new();
    let mut k: usize = 0;
    while k < count
        invariant
            k <= count,
            count == (n_q as int) * (t as int),
            8 + 2 * count <= bytes@.len(),
            bytes@.len() <= usize::MAX,
            tokens@.len() == k,
            forall|j: int| 0 <= j < k ==> tokens@[j] == le16_at(bytes@, 8 + 2 * j),
        decreases count - k,
    {
        let lo = bytes[8 + 2 * k] as u32;
        let hi = bytes[8 + 2 * k + 1] as u32;
        tokens.push(lo + 256 * hi);
        k += 1;
    }
    let g = TokenGrid { n_q: n_q as usize, t: t as usize, tokens };
    proof {
        let (pn, pt, ptoks) = parsed_container(bytes@).unwrap();
        assert(g.tokens@ =~= ptoks);
    }
    Ok(g)
}

/// Splitting a little-endian 32-bit value into four bytes and reading them
/// back yields the value.
proof fn lemma_le32_split(n: int)
    requires
        0 <= n < 0x1_0000_0000,
    ensures
        n % 256 + 256 * ((n / 256) % 256) + 65536 * ((n / 65536) % 256) + 16777216 * ((n
            / 16777216) % 256) == n,
{
    lemma_fundamental_div_mod(n, 256);
    lemma_div_denominator(n, 256, 256);
    lemma_fundamental_div_mod(n / 256, 256);
    lemma_div_denominator(n, 65536, 256);
    lemma_fundamental_div_mod(n / 65536, 256);
    assert(n / 16777216 < 256) by {
        lemma_div_denominator(n, 16777216, 256);
        lemma_basic_div(n, 0x1_0000_0000);
        lemma_fundamental_div_mod(n / 16777216, 256);
    }
}

/// Round trip: a container built from dimensions and 16-bit tokens parses
/// back to exactly those dimensions and tokens.
pub proof fn lemma_container_round_trip(n_q: u32, t: u32, tokens: Seq<u32>)
    requires
        tokens.len() == (n_q as int) * (t as int),
        forall|k: int| 0 <= k < tokens.len() ==> tokens[k] <= 0xffff,
    ensures
        parsed_container(container_bytes(n_q as int, t as int, tokens)) == Some(
            (n_q as int, t as int, tokens),
        ),
{
    let b = container_bytes(n_q as int, t as int, tokens);
    assert(b.len() == 8 + 2 * tokens.len());
    lemma_le32_split(n_q as int);
    lemma_le32_split(t as int);
    assert(le32_at(b, 0) == n_q as int);
    assert(le32_at(b, 4) == t as int);
    let parsed = Seq::new((n_q as int * t as int) as nat, |k: int| le16_at(b, 8 + 2 * k) as u32);
    assert forall|k: int| 0 <= k < tokens.len() implies parsed[k] == tokens[k] by {
        assert(b[8 + 2 * k] == (tokens[k] % 256) as u8);
        assert(b[8 + 2 * k + 1] == ((tokens[k] / 256) % 256) as u8);
        lemma_fundamental_div_mod(tokens[k] as int, 256);
        assert(tokens[k] / 256 < 256);
        assert(le16_at(b, 8 + 2 * k) == tokens[k]);
    }
    assert(parsed =~= tokens);
}

} // verus!
