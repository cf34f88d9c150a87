//! MSB-first bit reader over a byte slice.

use vstd::prelude::*;
use crate::image::bit_of;

verus! {

/// Bit `p` of the stream `data` read MSB first; 0 past the end.
pub open spec fn stream_bit(data: Seq<u8>, p: int) -> u8 {
    if 0 <= p && p / 8 < data.len() {
        bit_of(data[p / 8], p % 8)
    } else {
        0
    }
}

/// The `n` bits of `data` from bit `p` on, as a big-endian number (0 past the end).
pub open spec fn stream_value(data: Seq<u8>, p: int, n: nat) -> nat
    decreases n,
{
    if n == 0 {
        0
    } else {
        stream_value(data, p, (n - 1) as nat) * 2 + stream_bit(data, p + n - 1) as nat
    }
}

/// Reads bits MSB first; reading past the end gives zeros.
pub struct BitReader<'a> {
    data: &'a [u8],
    byte_offset: usize,
    bits_left: u8,
    current: u8,
}

impl<'a> BitReader<'a> {
    /// The bytes being read.
    pub closed spec fn bytes(&self) -> Seq<u8> {
        self.data@
    }

    /// Number of bits already read (or skipped by `align`).
    pub closed spec fn pos(&self) -> int {
        self.byte_offset * 8 - self.bits_left
    }

    pub closed spec fn wf(&self) -> bool {
        &&& self.byte_offset <= self.data@.len()
        &&& self.bits_left < 8
        &&& self.bits_left > 0 ==> self.byte_offset >= 1 && self.current == self.data@[self.byte_offset - 1]
    }

    proof fn lemma_pos_bounds(&self)
        requires
            self.wf(),
        ensures
            0 <= self.pos() <= 8 * self.bytes().len(),
            self.pos() == 8 * self.bytes().len() <==> (self.bits_left == 0 && self.byte_offset
                == self.data@.len()),
    {
    }

    /// The read position of a reader lies within the stream.
    pub proof fn lemma_pos_range(&self)
        requires
            self.wf(),
        ensures
            0 <= self.pos() <= 8 * self.bytes().len(),
    {
    }

    /// A read of `a` bits and then one of `b` bits give together what one read of
    /// `a + b` bits gives from the reader's position: the first value shifted left by
    /// `b`, plus the second, read from where the first read left the reader.
    pub proof fn law_read_in_two(&self, a: nat, b: nat)
        requires
            self.wf(),
        ensures
            stream_value(self.bytes(), self.pos(), a + b) == stream_value(self.bytes(), self.pos(), a)
                * vstd::arithmetic::power2::pow2(b) + stream_value(
                self.bytes(),
                vstd::math::min(self.pos() + a, 8 * self.bytes().len() as int),
                b,
            ),
    {
        law_read_bits_split(self.bytes(), self.pos(), a, b);
    }

    /// A reader positioned at the first bit of `data`.
    pub fn new(data: &'a [u8]) -> (r: Self)
        ensures
            r.wf(),
            r.bytes() == data@,
            r.pos() == 0,
    {
        BitReader { data, byte_offset: 0, bits_left: 0, current: 0 }
    }

    /// Read one bit (0 or 1); past the end of the data it returns 0 and stays put.
    pub fn read_bit(&mut self) -> (b: u8)
        requires
            old(self).wf(),
        ensures
            final(self).wf(),
            final(self).bytes() == old(self).bytes(),
            b == stream_bit(old(self).bytes(), old(self).pos()),
            b <= 1,
            final(self).pos() == if old(self).pos() < 8 * old(self).bytes().len() {
                old(self).pos() + 1
            } else {
                old(self).pos()
            },
    {
        proof {
            self.lemma_pos_bounds();
        }
        if self.bits_left == 0 {
            if self.byte_offset >= self.data.len() {
                return 0;
            }
            self.current = self.data[self.byte_offset];
            self.byte_offset += 1;
            self.bits_left = 8;
        }
        self.bits_left -= 1;
        let b = (self.current >> self.bits_left) & 1;
        proof {
            let p = old(self).pos();
            assert(p == (self.byte_offset - 1) * 8 + (7 - self.bits_left));
            assert(p / 8 == self.byte_offset - 1);
            assert(p % 8 == 7 - self.bits_left);
            let bl = self.bits_left;
            let c = self.current;
            assert((c >> bl) & 1 <= 1) by (bit_vector);
        }
        b
    }

    /// Read `n` bits MSB first as a number; only the low 32 bits of the value are kept.
    pub fn read_bits(&mut self, n: u8) -> (v: u32)
        requires
            old(self).wf(),
        ensures
            final(self).wf(),
            final(self).bytes() == old(self).bytes(),
            v as nat == stream_value(old(self).bytes(), old(self).pos(), n as nat) % 0x1_0000_0000,
            final(self).pos() == vstd::math::min(old(self).pos() + n, 8 * old(self).bytes().len() as int),
    {
        let mut val: u32 = 0;
        let mut i: u8 = 0;
        proof {
            self.lemma_pos_bounds();
        }
        while i < n
            invariant
                self.wf(),
                self.bytes() == old(self).bytes(),
                i <= n,
                val as nat == stream_value(old(self).bytes(), old(self).pos(), i as nat) % 0x1_0000_0000,
                self.pos() == vstd::math::min(old(self).pos() + i, 8 * old(self).bytes().len() as int),
            decreases n - i,
        {
            let b = self.read_bit();
            proof {
                let p0 = old(self).pos();
                let len8 = 8 * old(self).bytes().len();
                // The bit just read is stream bit p0 + i (or 0 past the end, where both agree).
                if p0 + i < len8 {
                } else {
                    assert(stream_bit(old(self).bytes(), p0 + i) == 0) by {
                        assert((p0 + i) / 8 >= old(self).bytes().len());
                    }
                }
                let sv = stream_value(old(self).bytes(), p0, i as nat);
                assert(stream_value(old(self).bytes(), p0, (i + 1) as nat) == sv * 2 + b as nat);
                let m = val;
                assert(((m << 1u32) | (b as u32)) as nat == ((m as nat) * 2 + b as nat) % 0x1_0000_0000)
                    by (bit_vector)
                    requires
                        b <= 1,
                ;
                assert(((sv % 0x1_0000_0000) * 2 + b as nat) % 0x1_0000_0000 == (sv * 2 + b as nat)
                    % 0x1_0000_0000) by (nonlinear_arith);
            }
            val = (val << 1u32) | (b as u32);
            i += 1;
        }
        val
    }

    /// Read 8 bits as a byte.
    pub fn read_byte(&mut self) -> (v: u8)
        requires
            old(self).wf(),
        ensures
            final(self).wf(),
            final(self).bytes() == old(self).bytes(),
            v as nat == stream_value(old(self).bytes(), old(self).pos(), 8),
            final(self).pos() == vstd::math::min(old(self).pos() + 8, 8 * old(self).bytes().len() as int),
    {
        let v = self.read_bits(8);
        proof {
            lemma_stream_value_bound(old(self).bytes(), old(self).pos(), 8);
            vstd::arithmetic::power2::lemma2_to64();
        }
        v as u8
    }

    /// Skip the rest of the current byte.
    pub fn align(&mut self)
        requires
            old(self).wf(),
        ensures
            final(self).wf(),
            final(self).bytes() == old(self).bytes(),
            final(self).pos() == (old(self).pos() + 7) / 8 * 8,
    {
        self.bits_left = 0;
    }

    /// Bytes consumed so far, a partially read byte included.
    pub fn bytes_consumed(&self) -> (n: usize)
        requires
            self.wf(),
        ensures
            n as int == (self.pos() + 7) / 8,
    {
        self.byte_offset
    }

    /// Whether every bit of the data has been read.
    pub fn is_eof(&self) -> (e: bool)
        requires
            self.wf(),
        ensures
            e == (self.pos() >= 8 * self.bytes().len()),
    {
        self.byte_offset >= self.data.len() && self.bits_left == 0
    }
}

pub proof fn lemma_stream_value_bound(data: Seq<u8>, p: int, n: nat)
    ensures
        stream_value(data, p, n) < vstd::arithmetic::power2::pow2(n),
    decreases n,
{
    if n == 0 {
        vstd::arithmetic::power2::lemma2_to64();
    } else {
        lemma_stream_value_bound(data, p, (n - 1) as nat);
        vstd::arithmetic::power2::lemma_pow2_unfold(n);
        let k = p + n - 1;
        if 0 <= k && k / 8 < data.len() {
            crate::image::lemma_bit_of_range(data[k / 8], k % 8);
        }
    }
}

/// No bits are left past the end of the stream: they read as 0.
pub proof fn lemma_stream_value_past_end(data: Seq<u8>, p: int, n: nat)
    requires
        p >= 8 * data.len(),
    ensures
        stream_value(data, p, n) == 0,
    decreases n,
{
    if n > 0 {
        lemma_stream_value_past_end(data, p, (n - 1) as nat);
        let k = p + n - 1;
        assert(k / 8 >= data.len());
    }
}

/// Reading `a + b` bits gives the first `a` bits followed by the next `b`: the value of
/// `a + b` bits from `p` is the value of the first `a`, shifted left by `b`, plus the
/// value of `b` bits from where a read of `a` bits leaves the reader.
pub proof fn law_read_bits_split(data: Seq<u8>, p: int, a: nat, b: nat)
    requires
        0 <= p <= 8 * data.len(),
    ensures
        stream_value(data, p, a + b) == stream_value(data, p, a) * vstd::arithmetic::power2::pow2(b)
            + stream_value(data, vstd::math::min(p + a, 8 * data.len() as int), b),
    decreases b,
{
    let q = vstd::math::min(p + a, 8 * data.len() as int);
    if p + a > 8 * data.len() {
        lemma_stream_value_past_end(data, p + a, b);
        lemma_stream_value_past_end(data, q, b);
    }
    assert(stream_value(data, q, b) == stream_value(data, p + a, b)) by {
        if p + a > 8 * data.len() {
        }
    }
    if b == 0 {
        vstd::arithmetic::power2::lemma2_to64();
    } else {
        law_read_bits_split(data, p, a, (b - 1) as nat);
        let x = stream_value(data, p, a);
        let y = stream_value(data, p + a, (b - 1) as nat);
        let pw = vstd::arithmetic::power2::pow2((b - 1) as nat);
        vstd::arithmetic::power2::lemma_pow2_unfold(b);
        if p + a > 8 * data.len() {
            lemma_stream_value_past_end(data, p + a, (b - 1) as nat);
            lemma_stream_value_past_end(data, q, (b - 1) as nat);
        }
        assert(stream_value(data, p, a + b) == stream_value(data, p, (a + b - 1) as nat) * 2 + stream_bit(data, p + a + b - 1) as nat);
        assert(stream_value(data, p + a, b) == y * 2 + stream_bit(data, p + a + b - 1) as nat);
        assert((x * pw + y) * 2 == x * (2 * pw) + y * 2) by (nonlinear_arith);
    }
}

} // verus!
