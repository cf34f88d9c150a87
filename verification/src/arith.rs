//! QM arithmetic decoder (ITU T.88 Annex E, software conventions of Annex F).

use vstd::prelude::*;
use vstd::wrapping::u32_specs::{wrapping_add, wrapping_sub};
use crate::error::Jbig2Error;

verus! {

/// An arithmetic coding context: 7-bit state index (low bits) and the MPS sense (bit 7).
pub type ArithCx = u8;

/// Number of probability estimation states (Table E.1).
pub const N_STATES: usize = 47;

/// Qe values of Table E.1.
pub const QE: [u16; 47] = [
    0x5601, 0x3401, 0x1801, 0x0AC1, 0x0521, 0x0221, 0x5601, 0x5401, 0x4801, 0x3801,
    0x3001, 0x2401, 0x1C01, 0x1601, 0x5601, 0x5401, 0x5101, 0x4801, 0x3801, 0x3401,
    0x3001, 0x2801, 0x2401, 0x2201, 0x1C01, 0x1801, 0x1601, 0x1401, 0x1201, 0x1101,
    0x0AC1, 0x09C1, 0x08A1, 0x0521, 0x0441, 0x02A1, 0x0221, 0x0141, 0x0111, 0x0085,
    0x0049, 0x0025, 0x0015, 0x0009, 0x0005, 0x0001, 0x5601,
];

/// NMPS column of Table E.1: next state after an MPS.
pub const NMPS: [u8; 47] = [
    1, 2, 3, 4, 5, 38, 7, 8, 9, 10, 11, 12, 13, 29, 15, 16, 17, 18, 19, 20, 21, 22, 23, 24,
    25, 26, 27, 28, 29, 30, 31, 32, 33, 34, 35, 36, 37, 38, 39, 40, 41, 42, 43, 44, 45, 45, 46,
];

/// NLPS column of Table E.1: next state after an LPS.
pub const NLPS: [u8; 47] = [
    1, 6, 9, 12, 29, 33, 6, 14, 14, 14, 17, 18, 20, 21, 14, 14, 15, 16, 17, 18, 19, 19, 20, 21,
    22, 23, 24, 25, 26, 27, 28, 29, 30, 31, 32, 33, 34, 35, 36, 37, 38, 39, 40, 41, 42, 43, 46,
];

/// SWITCH column of Table E.1: whether an LPS flips the MPS sense.
pub const SWITCH: [u8; 47] = [
    1, 0, 0, 0, 0, 0, 1, 0, 0, 0, 0, 0, 0, 0, 1, 0, 0, 0, 0, 0, 0, 0, 0, 0,
    0, 0, 0, 0, 0, 0, 0, 0, 0, 0, 0, 0, 0, 0, 0, 0, 0, 0, 0, 0, 0, 0, 0,
];

pub proof fn lemma_tables()
    ensures
        QE@.len() == 47,
        NMPS@.len() == 47,
        NLPS@.len() == 47,
        SWITCH@.len() == 47,
        forall|i: int| 0 <= i < 47 ==> 0 < #[trigger] QE@[i] <= 0x5601,
        forall|i: int| 0 <= i < 47 ==> #[trigger] NMPS@[i] < 47,
        forall|i: int| 0 <= i < 47 ==> #[trigger] NLPS@[i] < 47,
        forall|i: int| 0 <= i < 47 ==> #[trigger] SWITCH@[i] <= 1,
{
    assert(QE@ == seq![
        0x5601u16, 0x3401, 0x1801, 0x0AC1, 0x0521, 0x0221, 0x5601, 0x5401, 0x4801, 0x3801,
        0x3001, 0x2401, 0x1C01, 0x1601, 0x5601, 0x5401, 0x5101, 0x4801, 0x3801, 0x3401,
        0x3001, 0x2801, 0x2401, 0x2201, 0x1C01, 0x1801, 0x1601, 0x1401, 0x1201, 0x1101,
        0x0AC1, 0x09C1, 0x08A1, 0x0521, 0x0441, 0x02A1, 0x0221, 0x0141, 0x0111, 0x0085,
        0x0049, 0x0025, 0x0015, 0x0009, 0x0005, 0x0001, 0x5601,
    ]);
    assert(NMPS@ == seq![
        1u8, 2, 3, 4, 5, 38, 7, 8, 9, 10, 11, 12, 13, 29, 15, 16, 17, 18, 19, 20, 21, 22, 23, 24,
        25, 26, 27, 28, 29, 30, 31, 32, 33, 34, 35, 36, 37, 38, 39, 40, 41, 42, 43, 44, 45, 45, 46,
    ]);
    assert(NLPS@ == seq![
        1u8, 6, 9, 12, 29, 33, 6, 14, 14, 14, 17, 18, 20, 21, 14, 14, 15, 16, 17, 18, 19, 19, 20,
        21, 22, 23, 24, 25, 26, 27, 28, 29, 30, 31, 32, 33, 34, 35, 36, 37, 38, 39, 40, 41, 42, 43,
        46,
    ]);
    assert(SWITCH@ == seq![
        1u8, 0, 0, 0, 0, 0, 1, 0, 0, 0, 0, 0, 0, 0, 1, 0, 0, 0, 0, 0, 0, 0, 0, 0,
        0, 0, 0, 0, 0, 0, 0, 0, 0, 0, 0, 0, 0, 0, 0, 0, 0, 0, 0, 0, 0, 0, 0,
    ]);
}

/// The decoder registers (Annex E names: C, A, CT) and the byte-input buffer.
#[derive(Clone, Copy)]
pub struct ArithRegs {
    pub c: u32,
    pub a: u32,
    pub ct: i32,
    /// Up to four prefetched bytes, big-endian, the next one in the top byte.
    pub next_word: u32,
    /// How many bytes of `next_word` are valid.
    pub next_word_bytes: usize,
    /// Offset of the first byte not yet fetched.
    pub offset: usize,
}

/// The bytes `d[off .. off + n]` packed big-endian into the top of a word.
pub open spec fn be_word(d: Seq<u8>, off: int, n: nat) -> u32
    decreases n,
{
    if n == 0 {
        0
    } else {
        be_word(d, off, (n - 1) as nat) | ((d[off + n - 1] as u32) << ((24 - 8 * (n - 1)) as u32))
    }
}

/// How many bytes a fetch at `off` gets: at most four, at most what is left.
pub open spec fn fetch_count(d: Seq<u8>, off: int) -> int {
    if d.len() <= off {
        0
    } else if d.len() - off >= 4 {
        4
    } else {
        d.len() - off
    }
}

/// BYTEIN (Figure F.3): move the next byte into C, treating 0xFF followed by a byte
/// above 0x8F (or the end of the data) as a marker that feeds 1-bits from then on.
pub open spec fn spec_bytein(d: Seq<u8>, s: ArithRegs) -> ArithRegs {
    {
        let b = (s.next_word >> 24u32) & 0xFF;
        if b == 0xFF {
            if s.next_word_bytes <= 1 {
                let n = fetch_count(d, s.offset as int);
                if n == 0 {
                    ArithRegs { next_word: 0xFF90_0000, next_word_bytes: 2, c: wrapping_add(s.c, 0xFF00), ct: 8, ..s }
                } else {
                    let w = be_word(d, s.offset as int, n as nat);
                    let b1 = (w >> 24u32) & 0xFF;
                    if b1 > 0x8F {
                        ArithRegs {
                            ct: 8,
                            next_word: 0xFF00_0000 | (w >> 8u32),
                            next_word_bytes: 2,
                            offset: (s.offset + n - 1) as usize,
                            ..s
                        }
                    } else {
                        ArithRegs {
                            next_word: w,
                            next_word_bytes: n as usize,
                            offset: (s.offset + n) as usize,
                            c: wrapping_add(s.c, wrapping_sub(0xFE00, b1 << 9u32)),
                            ct: 7,
                            ..s
                        }
                    }
                }
            } else {
                let b1 = (s.next_word >> 16u32) & 0xFF;
                if b1 > 0x8F {
                    ArithRegs { ct: 8, ..s }
                } else {
                    ArithRegs {
                        next_word_bytes: (s.next_word_bytes - 1) as usize,
                        next_word: s.next_word << 8u32,
                        c: wrapping_add(s.c, wrapping_sub(0xFE00, b1 << 9u32)),
                        ct: 7,
                        ..s
                    }
                }
            }
        } else if s.next_word_bytes == 1 {
            let n = fetch_count(d, s.offset as int);
            if n > 0 {
                let w = be_word(d, s.offset as int, n as nat);
                let nb = (w >> 24u32) & 0xFF;
                ArithRegs {
                    next_word: w,
                    next_word_bytes: n as usize,
                    offset: (s.offset + n) as usize,
                    c: wrapping_add(s.c, wrapping_sub(0xFF00, nb << 8u32)),
                    ct: 8,
                    ..s
                }
            } else {
                ArithRegs { next_word: 0xFF90_0000, next_word_bytes: 2, c: wrapping_add(s.c, 0xFF00), ct: 8, ..s }
            }
        } else {
            let nw = s.next_word << 8u32;
            let nb = (nw >> 24u32) & 0xFF;
            ArithRegs {
                next_word: nw,
                next_word_bytes: (s.next_word_bytes - 1) as usize,
                c: wrapping_add(s.c, wrapping_sub(0xFF00, nb << 8u32)),
                ct: 8,
                ..s
            }
        }
    }
}

/// RENORMD (Figure E.18): shift A and C left (reading bytes as CT runs out) until
/// A is at least 0x8000.
pub open spec fn spec_renormd(d: Seq<u8>, s: ArithRegs) -> ArithRegs
    decreases 0x10000 - s.a,
    when 0 < s.a < 0x8000
{
    let s1 = if s.ct == 0 { spec_bytein(d, s) } else { s };
    let s2 = ArithRegs { a: (s1.a * 2) as u32, c: s1.c << 1u32, ct: (s1.ct - 1) as i32, ..s1 };
    if s2.a >= 0x8000 {
        s2
    } else {
        spec_renormd(d, s2)
    }
}

/// The state after initialisation on `d` (INITDEC, Figure F.1); `None` for empty data.
pub open spec fn spec_init(d: Seq<u8>) -> Option<ArithRegs> {
    let n = fetch_count(d, 0);
    if n == 0 {
        None
    } else {
        let w = be_word(d, 0, n as nat);
        let s0 = ArithRegs {
            c: (!(w >> 8u32)) & 0xFF0000,
            a: 0,
            ct: 0,
            next_word: w,
            next_word_bytes: n as usize,
            offset: n as usize,
        };
        let s1 = spec_bytein(d, s0);
        Some(ArithRegs { c: s1.c << 7u32, ct: (s1.ct - 7) as i32, a: 0x8000, ..s1 })
    }
}

/// The context after an MPS is coded in state `cx` (Table E.1, NMPS).
pub open spec fn cx_after_mps(cx: u8) -> u8 {
    (cx & 0x80) | NMPS@[(cx & 0x7F) as int]
}

/// The context after an LPS is coded in state `cx` (Table E.1, NLPS and SWITCH).
pub open spec fn cx_after_lps(cx: u8) -> u8 {
    ((cx & 0x80) ^ (SWITCH@[(cx & 0x7F) as int] << 7u8)) | NLPS@[(cx & 0x7F) as int]
}

/// DECODE (Figure F.2 with MPS_EXCHANGE and LPS_EXCHANGE, Figures E.16 and E.17):
/// the next state, the updated context and the decoded bit; `None` when the context
/// names no state of Table E.1.
pub open spec fn spec_decode(d: Seq<u8>, s: ArithRegs, cx: u8) -> Option<(ArithRegs, u8, u8)> {
    let i = (cx & 0x7F) as int;
    if i >= 47 {
        None
    } else {
        let qe = QE@[i] as u32;
        let mps = cx >> 7u8;
        let a = (s.a - qe) as u32;
        if (s.c >> 16u32) < a {
            if a >= 0x8000 {
                Some((ArithRegs { a, ..s }, cx, mps))
            } else if a < qe {
                Some((spec_renormd(d, ArithRegs { a, ..s }), cx_after_lps(cx), (1 - mps) as u8))
            } else {
                Some((spec_renormd(d, ArithRegs { a, ..s }), cx_after_mps(cx), mps))
            }
        } else {
            let c = (s.c - a * 0x10000) as u32;
            if a < qe {
                Some((spec_renormd(d, ArithRegs { a: qe, c, ..s }), cx_after_mps(cx), mps))
            } else {
                Some((spec_renormd(d, ArithRegs { a: qe, c, ..s }), cx_after_lps(cx), (1 - mps) as u8))
            }
        }
    }
}

/// Register invariants that hold between calls of the decoder.
pub open spec fn regs_wf(d: Seq<u8>, s: ArithRegs) -> bool {
    &&& 0x8000 <= s.a <= 0xFFFF
    &&& 0 <= s.ct <= 8
    &&& 1 <= s.next_word_bytes <= 4
    &&& s.offset <= d.len()
}

/// The same invariants in the middle of RENORMD, where A has dropped below 0x8000.
pub open spec fn regs_renorm_wf(d: Seq<u8>, s: ArithRegs) -> bool {
    &&& 0 < s.a < 0x8000
    &&& 0 <= s.ct <= 8
    &&& 1 <= s.next_word_bytes <= 4
    &&& s.offset <= d.len()
}

proof fn lemma_bytein_wf(d: Seq<u8>, s: ArithRegs)
    requires
        1 <= s.next_word_bytes <= 4,
        s.offset <= d.len(),
    ensures
        1 <= spec_bytein(d, s).next_word_bytes <= 4,
        spec_bytein(d, s).offset <= d.len(),
        7 <= spec_bytein(d, s).ct <= 8,
        spec_bytein(d, s).a == s.a,
{
}

proof fn lemma_renormd_wf(d: Seq<u8>, s: ArithRegs)
    requires
        regs_renorm_wf(d, s),
    ensures
        regs_wf(d, spec_renormd(d, s)),
    decreases 0x10000 - s.a,
{
    let s1 = if s.ct == 0 { spec_bytein(d, s) } else { s };
    if s.ct == 0 {
        lemma_bytein_wf(d, s);
    }
    let s2 = ArithRegs { a: (s1.a * 2) as u32, c: s1.c << 1u32, ct: (s1.ct - 1) as i32, ..s1 };
    if s2.a < 0x8000 {
        lemma_renormd_wf(d, s2);
    }
}

/// The decoder state over a byte slice.
pub struct ArithState<'a> {
    data: &'a [u8],
    c: u32,
    a: u32,
    ct: i32,
    next_word: u32,
    next_word_bytes: usize,
    offset: usize,
}

impl<'a> ArithState<'a> {
    /// The bytes being decoded.
    pub closed spec fn bytes(&self) -> Seq<u8> {
        self.data@
    }

    /// The decoder registers.
    pub closed spec fn regs(&self) -> ArithRegs {
        ArithRegs {
            c: self.c,
            a: self.a,
            ct: self.ct,
            next_word: self.next_word,
            next_word_bytes: self.next_word_bytes,
            offset: self.offset,
        }
    }

    pub open spec fn wf(&self) -> bool {
        regs_wf(self.bytes(), self.regs())
    }

    /// Start decoding `data`; fails on empty data.
    pub fn new(data: &'a [u8]) -> (r: Result<Self, Jbig2Error>)
        ensures
            r is Err <==> data@.len() == 0,
            r is Err ==> r matches Err(Jbig2Error::InvalidData(_)),
            r matches Ok(st) ==> st.wf() && st.bytes() == data@ && Some(st.regs()) == spec_init(data@),
    {
        if data.len() == 0 {
            return Err(Jbig2Error::InvalidData("empty data for arithmetic decoder".to_owned()));
        }
        let mut state = ArithState { data, c: 0, a: 0, ct: 0, next_word: 0, next_word_bytes: 0, offset: 0 };
        let (w, n) = state.fetch_word();
        state.next_word = w;
        state.next_word_bytes = n;
        state.offset = n;
        state.c = (!(state.next_word >> 8u32)) & 0xFF0000;
        proof {
            lemma_bytein_wf(state.bytes(), state.regs());
        }
        state.bytein();
        state.c = state.c << 7u32;
        state.ct = state.ct - 7;
        state.a = 0x8000;
        Ok(state)
    }

    /// Up to four bytes from `offset` on, big-endian, and how many there were.
    fn fetch_word(&self) -> (r: (u32, usize))
        requires
            self.offset <= self.data@.len(),
        ensures
            r.1 as int == fetch_count(self.bytes(), self.offset as int),
            r.1 <= 4,
            self.offset + r.1 <= self.bytes().len(),
            self.bytes().len() <= usize::MAX,
            r.1 > 0 ==> r.0 == be_word(self.bytes(), self.offset as int, r.1 as nat),
    {
        let off = self.offset;
        let remaining = self.data.len() - off;
        let n: usize = if remaining < 4 { remaining } else { 4 };
        let mut val: u32 = 0;
        let mut i: usize = 0;
        while i < n
            invariant
                n <= 4,
                off + n <= self.data@.len(),
                self.data@.len() <= usize::MAX,
                off == self.offset,
                i <= n,
                val == be_word(self.bytes(), off as int, i as nat),
            decreases n - i,
        {
            val = val | ((self.data[off + i] as u32) << (24 - (i as u32) * 8));
            i += 1;
        }
        (val, n)
    }

    /// BYTEIN (Figure F.3).
    fn bytein(&mut self)
        requires
            1 <= old(self).next_word_bytes <= 4,
            old(self).offset <= old(self).data@.len(),
        ensures
            final(self).regs() == spec_bytein(old(self).bytes(), old(self).regs()),
            final(self).bytes() == old(self).bytes(),
    {
        let b = (self.next_word >> 24u32) & 0xFF;
        if b == 0xFF {
            if self.next_word_bytes <= 1 {
                let (w, n) = self.fetch_word();
                self.next_word_bytes = n;
                if n == 0 {
                    self.next_word = 0xFF90_0000;
                    self.next_word_bytes = 2;
                    self.c = self.c.wrapping_add(0xFF00);
                    self.ct = 8;
                    return;
                }
                self.next_word = w;
                self.offset = self.offset + n;
                let b1 = (self.next_word >> 24u32) & 0xFF;
                if b1 > 0x8F {
                    self.ct = 8;
                    self.next_word = 0xFF00_0000 | (self.next_word >> 8u32);
                    self.next_word_bytes = 2;
                    self.offset = self.offset - 1;
                } else {
                    self.c = self.c.wrapping_add(0xFE00u32.wrapping_sub(b1 << 9u32));
                    self.ct = 7;
                }
            } else {
                let b1 = (self.next_word >> 16u32) & 0xFF;
                if b1 > 0x8F {
                    self.ct = 8;
                } else {
                    self.next_word_bytes = self.next_word_bytes - 1;
                    self.next_word = self.next_word << 8u32;
                    self.c = self.c.wrapping_add(0xFE00u32.wrapping_sub(b1 << 9u32));
                    self.ct = 7;
                }
            }
        } else {
            self.next_word = self.next_word << 8u32;
            self.next_word_bytes = self.next_word_bytes - 1;
            if self.next_word_bytes == 0 {
                let (w, n) = self.fetch_word();
                if n > 0 {
                    self.next_word = w;
                    self.next_word_bytes = n;
                    self.offset = self.offset + n;
                } else {
                    self.next_word = 0xFF90_0000;
                    self.next_word_bytes = 2;
                    self.c = self.c.wrapping_add(0xFF00);
                    self.ct = 8;
                    return;
                }
            }
            let nb = (self.next_word >> 24u32) & 0xFF;
            self.c = self.c.wrapping_add(0xFF00u32.wrapping_sub(nb << 8u32));
            self.ct = 8;
        }
    }

    /// RENORMD (Figure E.18).
    fn renormd(&mut self)
        requires
            regs_renorm_wf(old(self).bytes(), old(self).regs()),
        ensures
            final(self).regs() == spec_renormd(old(self).bytes(), old(self).regs()),
            final(self).bytes() == old(self).bytes(),
            final(self).wf(),
    {
        proof {
            lemma_renormd_wf(self.bytes(), self.regs());
        }
        let ghost target = spec_renormd(self.bytes(), self.regs());
        loop
            invariant_except_break
                regs_renorm_wf(self.bytes(), self.regs()),
                spec_renormd(self.bytes(), self.regs()) == target,
            invariant
                self.bytes() == old(self).bytes(),
            ensures
                self.regs() == target,
            decreases 0x10000 - self.a,
        {
            let ghost cur = self.regs();
            if self.ct == 0 {
                proof {
                    lemma_bytein_wf(self.bytes(), cur);
                }
                self.bytein();
            }
            let a = self.a;
            assert(a << 1u32 == a * 2 && (a * 2) < 0x10000) by (bit_vector)
                requires
                    a < 0x8000,
            ;
            self.a = self.a << 1u32;
            self.c = self.c << 1u32;
            self.ct = self.ct - 1;
            let a2 = self.a;
            assert(((a2 & 0x8000) != 0) == (a2 >= 0x8000)) by (bit_vector)
                requires
                    a2 < 0x10000,
            ;
            if (self.a & 0x8000) != 0 {
                break;
            }
        }
    }

    /// Decode one bit with context `cx` (DECODE, Figure F.2), updating the context.
    /// Fails, leaving everything unchanged, when `cx` names no state of Table E.1.
    pub fn decode(&mut self, cx: &mut ArithCx) -> (r: Result<u8, Jbig2Error>)
        requires
            old(self).wf(),
        ensures
            final(self).wf(),
            final(self).bytes() == old(self).bytes(),
            r is Err <==> (*old(cx) & 0x7F) >= 47,
            r is Err ==> (r matches Err(Jbig2Error::InvalidData(_))) && final(self).regs() == old(self).regs() && *final(cx) == *old(cx),
            r matches Ok(d) ==> spec_decode(old(self).bytes(), old(self).regs(), *old(cx)) == Some(
                (final(self).regs(), *final(cx), d),
            ),
            r matches Ok(d) ==> d <= 1,
    {
        let index = (*cx & 0x7F) as usize;
        if index >= N_STATES {
            return Err(Jbig2Error::InvalidData("arithmetic context index out of range".to_owned()));
        }
        proof {
            lemma_tables();
        }
        let ghost s0 = self.regs();
        let c0 = *cx;
        let qe = QE[index] as u32;
        let mps = *cx >> 7u8;
        self.a = self.a - qe;
        let a = self.a;
        assert(mps <= 1 && (c0 & 0x80) | 0 == c0 & 0x80 && ((a & 0x8000) == 0) == (a < 0x8000)) by (bit_vector)
            requires
                mps == c0 >> 7u8,
                a < 0x10000,
        ;
        if (self.c >> 16u32) < self.a {
            if (self.a & 0x8000) == 0 {
                let d = if self.a < qe {
                    *cx = ((*cx & 0x80) ^ (SWITCH[index] << 7u8)) | NLPS[index];
                    1 - mps
                } else {
                    *cx = (*cx & 0x80) | NMPS[index];
                    mps
                };
                self.renormd();
                Ok(d)
            } else {
                Ok(mps)
            }
        } else {
            let c = self.c;
            assert((a << 16u32) == a * 0x10000 && c >= a * 0x10000) by (bit_vector)
                requires
                    a < 0x10000,
                    (c >> 16u32) >= a,
            ;
            self.c = self.c - (self.a << 16u32);
            let d = if self.a < qe {
                self.a = qe;
                *cx = (*cx & 0x80) | NMPS[index];
                mps
            } else {
                self.a = qe;
                *cx = ((*cx & 0x80) ^ (SWITCH[index] << 7u8)) | NLPS[index];
                1 - mps
            };
            self.renormd();
            Ok(d)
        }
    }
}

/// Every context of `stats` names a state of Table E.1.
pub open spec fn ctx_valid(stats: Seq<u8>) -> bool {
    forall|i: int| 0 <= i < stats.len() ==> (#[trigger] stats[i] & 0x7F) < 47
}

/// A table of all-zero contexts is valid.
pub proof fn lemma_zero_ctx_valid(stats: Seq<u8>)
    requires
        forall|i: int| 0 <= i < stats.len() ==> stats[i] == 0,
    ensures
        ctx_valid(stats),
{
    assert forall|i: int| 0 <= i < stats.len() implies (#[trigger] stats[i] & 0x7F) < 47 by {
        assert(0u8 & 0x7F == 0) by (bit_vector);
    }
}

/// Decoding with context `cx` that names a state of Table E.1 succeeds, and the updated
/// context names a state of Table E.1 again.
pub proof fn lemma_decode_keeps_ctx_valid(d: Seq<u8>, s: ArithRegs, cx: u8)
    requires
        (cx & 0x7F) < 47,
    ensures
        spec_decode(d, s, cx) is Some,
        (spec_decode(d, s, cx).unwrap().1 & 0x7F) < 47,
        spec_decode(d, s, cx).unwrap().2 <= 1,
{
    lemma_tables();
    let i = (cx & 0x7F) as int;
    let n1 = NMPS@[i];
    let n2 = NLPS@[i];
    let sw = SWITCH@[i];
    assert(((cx & 0x80) | n1) & 0x7F == n1 && (((cx & 0x80) ^ (sw << 7u8)) | n2) & 0x7F == n2 && (cx
        >> 7u8) <= 1) by (bit_vector)
        requires
            n1 < 47,
            n2 < 47,
            sw <= 1,
    ;
}

/// Decode bit with context `stats[i]` of a context table.
pub open spec fn spec_decode_in(d: Seq<u8>, s: ArithRegs, stats: Seq<u8>, i: int) -> (ArithRegs, Seq<u8>, u8) {
    let r = spec_decode(d, s, stats[i]).unwrap();
    (r.0, stats.update(i, r.1), r.2)
}

impl<'a> ArithState<'a> {
    /// Decode a bit with context number `i` of the context table `stats`.
    pub fn decode_in(&mut self, stats: &mut [ArithCx], i: usize) -> (b: u8)
        requires
            old(self).wf(),
            i < old(stats)@.len(),
            ctx_valid(old(stats)@),
        ensures
            final(self).wf(),
            final(self).bytes() == old(self).bytes(),
            ctx_valid(final(stats)@),
            (final(self).regs(), final(stats)@, b) == spec_decode_in(
                old(self).bytes(),
                old(self).regs(),
                old(stats)@,
                i as int,
            ),
            b <= 1,
    {
        let mut cx = stats[i];
        proof {
            lemma_decode_keeps_ctx_valid(self.bytes(), self.regs(), cx);
        }
        let r = self.decode(&mut cx);
        let b = match r {
            Ok(b) => b,
            Err(_) => 0,
        };
        stats[i] = cx;
        b
    }
}

} // verus!
