use vstd::arithmetic::mul::{lemma_mul_inequality, lemma_mul_nonnegative};
use vstd::prelude::*;

use crate::errors::CodecError;

verus! {

/// A rectangular grid of codec tokens: `n_q` quantizer rows by `t` time
/// steps, stored row-major (all `t` tokens of quantizer 0 first, then all
/// `t` tokens of quantizer 1, and so on).
///
/// Grids produced by the encoder model always have at least one quantizer
/// row; a grid read back from a container carries whatever dimensions its
/// header declared.
pub struct TokenGrid {
    pub n_q: usize,
    pub t: usize,
    pub tokens: Vec<u32>,
}

impl TokenGrid {
    /// Structural invariant: the token storage matches the dimensions, the
    /// dimensions fit the container header's 32-bit fields, and the full
    /// serialized size fits in a `usize`.
    pub open spec fn wf(&self) -> bool {
        &&& self.tokens@.len() == self.n_q * self.t
        &&& self.n_q <= u32::MAX
        &&& self.t <= u32::MAX
        &&& 8 + 2 * (self.n_q * self.t) <= usize::MAX
    }

    /// The tokens of quantizer row `q`, in time order.
    pub open spec fn row(&self, q: int) -> Seq<u32> {
        self.tokens@.subrange(q * self.t, (q + 1) * self.t)
    }
}

/// Bandwidth selection: keep only the quantizer rows `[0, n_q_out)` of `g`,
/// dropping the finer ones, with the time dimension unchanged. The quantizer
/// rows are ordered coarse to fine, so a prefix is a usable lower-fidelity
/// reconstruction. A target of zero, or one exceeding the rows available,
/// is a caller error and is rejected.
pub fn truncate_quantizers(g: &TokenGrid, n_q_out: usize) -> (r: Result<TokenGrid, CodecError>)
    requires
        g.wf(),
    ensures
        r is Ok <==> 1 <= n_q_out <= g.n_q,
        r is Err ==> r == Err::<TokenGrid, CodecError>(CodecError::InvalidBandwidthTarget),
        r is Ok ==> {
            let out = r.unwrap();
            &&& out.wf()
            &&& out.n_q == n_q_out
            &&& out.t == g.t
            &&& out.tokens@ == g.tokens@.subrange(0, n_q_out * g.t)
            &&& forall|q: int| 0 <= q < n_q_out ==> out.row(q) == g.row(q)
        },
{
    if n_q_out == 0 || n_q_out > g.n_q {
        return Err(CodecError::InvalidBandwidthTarget);
    }
    proof {
        lemma_mul_inequality(n_q_out as int, g.n_q as int, g.t as int);
    }
    let count: usize = n_q_out * g.t;
    let mut tokens: Vec<u32> = Vec::new();
    let mut i: usize = 0;
    while i < count
        invariant
            i <= count,
            count == n_q_out * g.t,
            count <= g.tokens@.len(),
            tokens@ == g.tokens@.subrange(0, i as int),
        decreases count - i,
    {
        tokens.push(g.tokens[i]);
        i += 1;
        proof {
            assert(tokens@ =~= g.tokens@.subrange(0, i as int));
        }
    }
    let out = TokenGrid { n_q: n_q_out, t: g.t, tokens };
    proof {
        assert forall|q: int| 0 <= q < n_q_out implies out.row(q) == g.row(q) by {
            lemma_mul_nonnegative(q, g.t as int);
            lemma_mul_inequality(q, q + 1, g.t as int);
            lemma_mul_inequality(q + 1, n_q_out as int, g.t as int);
            assert(out.row(q) =~= g.row(q));
        }
    }
    Ok(out)
}

} // verus!
