//! Arithmetic integer decoding (ITU T.88 Annex A.2, the IAx procedures).

use vstd::prelude::*;
use crate::arith::{ArithRegs, ArithState, ctx_valid, spec_decode_in, lemma_zero_ctx_valid};
use crate::error::Jbig2Error;

verus! {

/// Bound on PREV after `k` one-bits of the prefix.
pub open spec fn prefix_bound(k: nat) -> usize {
    if k == 0 {
        4
    } else if k == 1 {
        8
    } else if k == 2 {
        16
    } else if k == 3 {
        32
    } else {
        64
    }
}

/// Length of the value field for `k` leading one-bits of the prefix (Table A.1).
pub open spec fn int_tail_len(k: nat) -> nat {
    if k == 0 {
        2
    } else if k == 1 {
        4
    } else if k == 2 {
        6
    } else if k == 3 {
        8
    } else if k == 4 {
        12
    } else {
        32
    }
}

/// Offset added to the value field for `k` leading one-bits of the prefix (Table A.1).
pub open spec fn int_offset(k: nat) -> int {
    if k == 0 {
        0
    } else if k == 1 {
        4
    } else if k == 2 {
        20
    } else if k == 3 {
        84
    } else if k == 4 {
        340
    } else {
        4436
    }
}

/// The prefix of Table A.1: decode bits until a 0 or until five 1-bits; gives the state,
/// the contexts, PREV and the number `k` of 1-bits.
pub open spec fn int_prefix(d: Seq<u8>, s: ArithRegs, ctx: Seq<u8>, prev: usize, k: nat) -> (
    ArithRegs,
    Seq<u8>,
    usize,
    nat,
)
    decreases 5 - k,
{
    let (s2, ctx2, b) = spec_decode_in(d, s, ctx, prev as int);
    let prev2 = (prev * 2 + b) as usize;
    if b == 0 {
        (s2, ctx2, prev2, k)
    } else if k >= 4 {
        (s2, ctx2, prev2, 5)
    } else {
        int_prefix(d, s2, ctx2, prev2, k + 1)
    }
}

/// PREV after coding bit `b` in the value field (A.2, step 3: bit 8 of PREV sticks).
pub open spec fn next_prev(prev: usize, b: u8) -> usize {
    ((prev << 1usize) & 511) | (prev & 256) | (b as usize)
}

/// The value field: `n` bits, most significant first, added to `v`.
pub open spec fn int_value(d: Seq<u8>, s: ArithRegs, ctx: Seq<u8>, prev: usize, n: nat, v: int) -> (
    ArithRegs,
    Seq<u8>,
    usize,
    int,
)
    decreases n,
{
    if n == 0 {
        (s, ctx, prev, v)
    } else {
        let (s2, ctx2, b) = spec_decode_in(d, s, ctx, prev as int);
        int_value(d, s2, ctx2, next_prev(prev, b), (n - 1) as nat, v * 2 + b)
    }
}

/// The IAx decoding procedure: the decoder state and contexts after it, and the integer,
/// `None` for OOB (negative sign with a zero value). Values above `i32::MAX` are
/// clamped to it.
pub open spec fn spec_int_decode(d: Seq<u8>, s: ArithRegs, ctx: Seq<u8>) -> (ArithRegs, Seq<u8>, Option<i32>) {
    let (s1, c1, sign) = spec_decode_in(d, s, ctx, 1);
    let (s2, c2, p2, k) = int_prefix(d, s1, c1, (2 + sign) as usize, 0);
    let (s3, c3, p3, v) = int_value(d, s2, c2, p2, int_tail_len(k), 0);
    let m = if v + int_offset(k) > i32::MAX { i32::MAX as int } else { v + int_offset(k) };
    (s3, c3, if sign != 0 && m == 0 { None } else if sign != 0 { Some((-m) as i32) } else { Some(m as i32) })
}

/// Contexts for decoding one kind of integer (512 contexts, Annex A.2).
pub struct ArithIntCtx {
    iax: Vec<u8>,
}

impl ArithIntCtx {
    /// The context table.
    pub closed spec fn contexts(&self) -> Seq<u8> {
        self.iax@
    }

    pub open spec fn wf(&self) -> bool {
        &&& self.contexts().len() == 512
        &&& ctx_valid(self.contexts())
    }

    /// Fresh contexts, all zero.
    pub fn new() -> (r: Self)
        ensures
            r.wf(),
            forall|i: int| 0 <= i < 512 ==> r.contexts()[i] == 0,
    {
        let r = ArithIntCtx { iax: vec![0u8; 512] };
        proof {
            lemma_zero_ctx_valid(r.iax@);
        }
        r
    }

    /// Decode an integer; `None` stands for OOB.
    pub fn decode(&mut self, as_: &mut ArithState) -> (r: Result<Option<i32>, Jbig2Error>)
        requires
            old(self).wf(),
            old(as_).wf(),
        ensures
            final(self).wf(),
            final(as_).wf(),
            final(as_).bytes() == old(as_).bytes(),
            r is Ok,
            r matches Ok(v) ==> (final(as_).regs(), final(self).contexts(), v) == spec_int_decode(
                old(as_).bytes(),
                old(as_).regs(),
                old(self).contexts(),
            ),
    {
        let ghost d = as_.bytes();
        let mut prev: usize = 1;
        let sign = as_.decode_in(self.iax.as_mut_slice(), prev);
        assert((1usize << 1usize) | (sign as usize) == 2 + sign) by (bit_vector)
            requires
                sign <= 1,
        ;
        prev = (prev << 1usize) | (sign as usize);
        let ghost s1 = as_.regs();
        let ghost c1 = self.iax@;
        // Prefix: count 1-bits up to five.
        let mut k: usize = 0;
        loop
            invariant_except_break
                k <= 4,
                2 <= prev < prefix_bound(k as nat),
                int_prefix(d, as_.regs(), self.iax@, prev, k as nat) == int_prefix(d, s1, c1, (2 + sign) as usize, 0),
            invariant
                as_.wf(),
                as_.bytes() == d,
                self.iax@.len() == 512,
                ctx_valid(self.iax@),
            ensures
                k <= 5,
                prev < 512,
                (as_.regs(), self.iax@, prev, k as nat) == int_prefix(d, s1, c1, (2 + sign) as usize, 0),
            decreases 5 - k,
        {
            let bit = as_.decode_in(self.iax.as_mut_slice(), prev);
            let p = prev;
            assert((p << 1usize) | (bit as usize) == p * 2 + bit) by (bit_vector)
                requires
                    p < 64,
                    bit <= 1,
            ;
            prev = (prev << 1usize) | (bit as usize);
            if bit == 0 {
                break;
            }
            if k >= 4 {
                k = 5;
                break;
            }
            k += 1;
        }
        let (n_tail, offset): (u8, i64) = if k == 0 {
            (2, 0)
        } else if k == 1 {
            (4, 4)
        } else if k == 2 {
            (6, 20)
        } else if k == 3 {
            (8, 84)
        } else if k == 4 {
            (12, 340)
        } else {
            (32, 4436)
        };
        let ghost s2 = as_.regs();
        let ghost c2 = self.iax@;
        let ghost p2 = prev;
        let mut v: i64 = 0;
        let mut j: u8 = 0;
        proof {
            vstd::arithmetic::power2::lemma2_to64();
        }
        while j < n_tail
            invariant
                as_.wf(),
                as_.bytes() == d,
                self.iax@.len() == 512,
                ctx_valid(self.iax@),
                j <= n_tail,
                n_tail as nat == int_tail_len(k as nat),
                prev < 512,
                0 <= v < vstd::arithmetic::power2::pow2(j as nat),
                v <= 0x1_0000_0000,
                n_tail <= 32,
                int_value(d, as_.regs(), self.iax@, prev, (n_tail - j) as nat, v as int) == int_value(
                    d,
                    s2,
                    c2,
                    p2,
                    int_tail_len(k as nat),
                    0,
                ),
            decreases n_tail - j,
        {
            let bit = as_.decode_in(self.iax.as_mut_slice(), prev);
            let p = prev;
            assert(((p << 1usize) & 511) | (p & 256) | (bit as usize) < 512) by (bit_vector)
                requires
                    p < 512,
                    bit <= 1,
            ;
            prev = ((prev << 1usize) & 511) | (prev & 256) | (bit as usize);
            proof {
                vstd::arithmetic::power2::lemma_pow2_unfold((j + 1) as nat);
                if j + 1 < 32 {
                    vstd::arithmetic::power2::lemma_pow2_strictly_increases((j + 1) as nat, 32);
                }
                vstd::arithmetic::power2::lemma2_to64();
            }
            v = v * 2 + bit as i64;
            j += 1;
        }
        let total = v + offset;
        let m: i32 = if total > i32::MAX as i64 { i32::MAX } else { total as i32 };
        if sign != 0 && m == 0 {
            Ok(None)
        } else if sign != 0 {
            Ok(Some(-m))
        } else {
            Ok(Some(m))
        }
    }
}

} // verus!
