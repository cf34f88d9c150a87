//! Arithmetic symbol ID decoding (ITU T.88 Annex A.3, the IAID procedure).

use vstd::prelude::*;
use vstd::arithmetic::power2::{pow2, lemma2_to64, lemma_pow2_unfold, lemma_pow2_strictly_increases};
use crate::arith::{ArithRegs, ArithState, ctx_valid, spec_decode_in, lemma_zero_ctx_valid};
use crate::error::Jbig2Error;

verus! {

/// Decode `n` more bits of a symbol ID, each with context PREV, where PREV collects the
/// bits behind a leading 1; gives the state, the contexts and the final PREV.
pub open spec fn iaid_bits(d: Seq<u8>, s: ArithRegs, ctx: Seq<u8>, prev: int, n: nat) -> (
    ArithRegs,
    Seq<u8>,
    int,
)
    decreases n,
{
    if n == 0 {
        (s, ctx, prev)
    } else {
        let (s2, ctx2, b) = spec_decode_in(d, s, ctx, prev);
        iaid_bits(d, s2, ctx2, prev * 2 + b, (n - 1) as nat)
    }
}

/// The IAID procedure for SBSYMCODELEN = `len`: state, contexts and the symbol ID.
pub open spec fn spec_iaid_decode(d: Seq<u8>, s: ArithRegs, ctx: Seq<u8>, len: nat) -> (ArithRegs, Seq<u8>, int) {
    let (s2, c2, prev) = iaid_bits(d, s, ctx, 1, len);
    (s2, c2, prev - pow2(len))
}

/// Contexts for decoding symbol IDs of a fixed code length.
pub struct ArithIaidCtx {
    sbsymcodelen: u8,
    iaidx: Vec<u8>,
}

impl ArithIaidCtx {
    /// SBSYMCODELEN.
    pub closed spec fn code_len(&self) -> nat {
        self.sbsymcodelen as nat
    }

    /// The context table (2^SBSYMCODELEN contexts).
    pub closed spec fn contexts(&self) -> Seq<u8> {
        self.iaidx@
    }

    pub open spec fn wf(&self) -> bool {
        &&& self.code_len() <= 30
        &&& self.contexts().len() == pow2(self.code_len())
        &&& ctx_valid(self.contexts())
    }

    /// Contexts for symbol codes of `sbsymcodelen` bits; fails above 30 bits.
    pub fn new(sbsymcodelen: u8) -> (r: Result<Self, Jbig2Error>)
        ensures
            r is Err <==> sbsymcodelen > 30,
            r matches Err(e) ==> e is InvalidData,
            r matches Ok(c) ==> c.wf() && c.code_len() == sbsymcodelen && forall|i: int|
                0 <= i < c.contexts().len() ==> c.contexts()[i] == 0,
    {
        if sbsymcodelen > 30 {
            return Err(Jbig2Error::InvalidData("SBSYMCODELEN too large for IAID context".to_owned()));
        }
        proof {
            lemma2_to64();
            if sbsymcodelen < 30 {
                lemma_pow2_strictly_increases(sbsymcodelen as nat, 30);
            }
            vstd::bits::lemma_usize_shl_is_mul(1, sbsymcodelen as usize);
        }
        let size = 1usize << (sbsymcodelen as usize);
        let r = ArithIaidCtx { sbsymcodelen, iaidx: vec![0u8; size] };
        proof {
            lemma_zero_ctx_valid(r.iaidx@);
        }
        Ok(r)
    }

    /// Decode a symbol ID, a number below 2^SBSYMCODELEN.
    pub fn decode(&mut self, as_: &mut ArithState) -> (r: Result<u32, Jbig2Error>)
        requires
            old(self).wf(),
            old(as_).wf(),
        ensures
            final(self).wf(),
            final(self).code_len() == old(self).code_len(),
            final(as_).wf(),
            final(as_).bytes() == old(as_).bytes(),
            r is Ok,
            r matches Ok(id) ==> (final(as_).regs(), final(self).contexts(), id as int)
                == spec_iaid_decode(old(as_).bytes(), old(as_).regs(), old(self).contexts(), old(self).code_len()),
            r matches Ok(id) ==> id < pow2(old(self).code_len()),
    {
        let ghost d = as_.bytes();
        let ghost s0 = as_.regs();
        let ghost c0 = self.iaidx@;
        let n = self.sbsymcodelen;
        let mut prev: usize = 1;
        let mut j: u8 = 0;
        proof {
            lemma2_to64();
        }
        while j < n
            invariant
                n as nat == self.code_len(),
                self.wf(),
                as_.wf(),
                as_.bytes() == d,
                j <= n,
                n <= 30,
                pow2(j as nat) <= prev < pow2((j + 1) as nat),
                iaid_bits(d, as_.regs(), self.iaidx@, prev as int, (n - j) as nat) == iaid_bits(d, s0, c0, 1, n as nat),
            decreases n - j,
        {
            proof {
                lemma2_to64();
                lemma_pow2_unfold((j + 1) as nat);
                lemma_pow2_unfold((j + 2) as nat);
                if j + 1 < n {
                    lemma_pow2_strictly_increases((j + 1) as nat, n as nat);
                }
                if n < 30 {
                    lemma_pow2_strictly_increases(n as nat, 30);
                }
            }
            let d_bit = as_.decode_in(self.iaidx.as_mut_slice(), prev);
            prev = prev * 2 + d_bit as usize;
            j += 1;
        }
        proof {
            lemma2_to64();
            lemma_pow2_unfold((n + 1) as nat);
            if n < 30 {
                lemma_pow2_strictly_increases(n as nat, 30);
            }
            vstd::bits::lemma_usize_shl_is_mul(1, n as usize);
        }
        prev = prev - (1usize << (n as usize));
        Ok(prev as u32)
    }
}

} // verus!
