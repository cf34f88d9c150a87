//! MMR decoding (ITU-T T.6 two-dimensional coding, as used by T.88 6.2.6).

use vstd::prelude::*;
use crate::bitreader::stream_bit;
use crate::error::Jbig2Error;
use crate::image::{bit_of, lemma_fill_bits, Jbig2Image};
use crate::mmr_tables::{code_table_ok, lemma_mmr_tables, black_bits, black_vals, white_bits, white_vals, BLACK_BITS, BLACK_VALS, WHITE_BITS, WHITE_VALS, ERROR, UNCOMPRESSED, ZEROES};

verus! {

/// The registers of the MMR bit reader: the next byte to load, the number of free bits
/// at the low end of `word`, the 32-bit window whose high bits are the next bits of the
/// stream, and the number of bits consumed (at most the stream's length).
#[derive(Clone, Copy)]
pub struct MmrRegs {
    pub data_index: usize,
    pub bit_index: u32,
    pub word: u32,
    pub consumed_bits: usize,
}

/// Load whole bytes into the free low bits of the window while there is room.
pub open spec fn mmr_refill(d: Seq<u8>, r: MmrRegs) -> MmrRegs
    decreases d.len() - r.data_index,
{
    if r.bit_index >= 8 && r.data_index < d.len() && d.len() <= usize::MAX {
        mmr_refill(
            d,
            MmrRegs {
                bit_index: (r.bit_index - 8) as u32,
                word: r.word | ((d[r.data_index as int] as u32) << ((r.bit_index - 8) as u32)),
                data_index: (r.data_index + 1) as usize,
                ..r
            },
        )
    } else {
        r
    }
}

/// The registers after consuming `n` bits.
pub open spec fn mmr_consume(d: Seq<u8>, r: MmrRegs, n: u32) -> MmrRegs {
    let cb = if r.consumed_bits + n > d.len() * 8 {
        (d.len() * 8) as int
    } else {
        r.consumed_bits + n
    };
    mmr_refill(d, MmrRegs { consumed_bits: cb as usize, word: r.word << n, bit_index: (r.bit_index + n) as u32, ..r })
}

/// The registers at the start of `d`.
pub open spec fn mmr_start(d: Seq<u8>) -> MmrRegs {
    mmr_refill(d, MmrRegs { data_index: 0, bit_index: 32, word: 0, consumed_bits: 0 })
}

/// Bits of the stream not yet consumed, those of unloaded bytes included; it goes below
/// zero when a code reads past the end (where the stream reads as zeros).
pub open spec fn mmr_avail(d: Seq<u8>, r: MmrRegs) -> int {
    8 * (d.len() - r.data_index) + 32 - r.bit_index
}

/// The low `bi` bits of `w` are zero.
pub open spec fn low_zero(w: u32, bi: u32) -> bool {
    bi == 0 || (w << ((32 - bi) as u32)) == 0
}

/// Register invariant: bytes are loaded while they fit, free bits are zero, and the
/// registers stay within their ranges.
pub open spec fn mmr_regs_ok(d: Seq<u8>, r: MmrRegs) -> bool {
    &&& r.data_index <= d.len()
    &&& r.data_index < d.len() ==> r.bit_index < 8
    &&& r.bit_index >= 32 ==> r.word == 0
    &&& r.bit_index < 32 ==> low_zero(r.word, r.bit_index)
    &&& r.consumed_bits <= d.len() * 8
    &&& d.len() * 8 + 200 <= usize::MAX
    &&& mmr_avail(d, r) >= -68
}

proof fn lemma_shift_low_zero(w: u32, bi: u32, n: u32)
    requires
        bi < 32,
        n < 32,
        low_zero(w, bi),
    ensures
        bi + n >= 32 ==> (w << n) == 0,
        bi + n < 32 ==> low_zero(w << n, (bi + n) as u32),
{
    assert((bi < 32 && n < 32 && (bi == 0 || (w << ((32 - bi) as u32)) == 0) && bi + n >= 32 ==> (w << n) == 0)
        && (bi < 32 && n < 32 && (bi == 0 || (w << ((32 - bi) as u32)) == 0) && bi + n < 32 ==> (bi + n == 0
        || ((w << n) << ((32 - (bi + n)) as u32)) == 0))) by (bit_vector);
}

proof fn lemma_load_low_zero(w: u32, bi: u32, b: u8)
    requires
        8 <= bi <= 32,
        bi < 32 ==> low_zero(w, bi),
        bi == 32 ==> w == 0,
    ensures
        low_zero(w | ((b as u32) << ((bi - 8) as u32)), (bi - 8) as u32),
{
    assert((bi == 32 && w == 0 ==> ((w | ((b as u32) << ((bi - 8) as u32))) << ((32 - (bi - 8)) as u32)) == 0)
        && (8 <= bi < 32 && (w << ((32 - bi) as u32)) == 0 ==> (bi - 8 == 0 || ((w | ((b as u32) << ((bi - 8)
        as u32))) << ((32 - (bi - 8)) as u32)) == 0))) by (bit_vector);
}

proof fn lemma_refill_ok(d: Seq<u8>, r: MmrRegs)
    requires
        r.data_index <= d.len(),
        r.bit_index < 32 ==> low_zero(r.word, r.bit_index),
        r.bit_index >= 32 ==> r.word == 0,
        r.data_index < d.len() ==> r.bit_index <= 32,
        r.consumed_bits <= d.len() * 8,
        d.len() * 8 + 200 <= usize::MAX,
        mmr_avail(d, r) >= -68,
    ensures
        mmr_regs_ok(d, mmr_refill(d, r)),
        mmr_avail(d, mmr_refill(d, r)) == mmr_avail(d, r),
        mmr_refill(d, r).consumed_bits == r.consumed_bits,
    decreases d.len() - r.data_index,
{
    if r.bit_index >= 8 && r.data_index < d.len() && d.len() <= usize::MAX {
        lemma_load_low_zero(r.word, r.bit_index, d[r.data_index as int]);
        let r2 = MmrRegs {
            bit_index: (r.bit_index - 8) as u32,
            word: r.word | ((d[r.data_index as int] as u32) << ((r.bit_index - 8) as u32)),
            data_index: (r.data_index + 1) as usize,
            ..r
        };
        lemma_refill_ok(d, r2);
    }
}

/// A set bit at position `s` of the window shows that at least `32 - s` bits remain.
proof fn lemma_bit_shows_avail(d: Seq<u8>, r: MmrRegs, s: u32)
    requires
        mmr_regs_ok(d, r),
        s < 32,
        (r.word >> s) & 1 == 1,
    ensures
        mmr_avail(d, r) >= 32 - s,
{
    let w = r.word;
    let bi = r.bit_index;
    assert((0u32 >> s) & 1 == 0 && (bi < 32 && s < 32 && (bi == 0 || (w << ((32 - bi) as u32)) == 0) && (w >> s)
        & 1 == 1 ==> bi <= s)) by (bit_vector);
}

/// A window that is not zero shows that some bit remains.
proof fn lemma_nonzero_avail(d: Seq<u8>, r: MmrRegs)
    requires
        mmr_regs_ok(d, r),
        r.word != 0,
    ensures
        mmr_avail(d, r) >= 1,
{
}

/// The MMR decoding context: the bit reader over `data` and the line width.
pub struct MmrCtx<'a> {
    data: &'a [u8],
    width: u32,
    data_index: usize,
    bit_index: u32,
    word: u32,
    consumed_bits: usize,
}

impl<'a> MmrCtx<'a> {
    /// The bytes being decoded.
    pub closed spec fn bytes(&self) -> Seq<u8> {
        self.data@
    }

    /// The line width.
    pub closed spec fn line_width(&self) -> u32 {
        self.width
    }

    /// The reader registers.
    pub closed spec fn regs(&self) -> MmrRegs {
        MmrRegs {
            data_index: self.data_index,
            bit_index: self.bit_index,
            word: self.word,
            consumed_bits: self.consumed_bits,
        }
    }

    pub open spec fn wf(&self) -> bool {
        mmr_regs_ok(self.bytes(), self.regs())
    }

    /// A context for lines of `width` pixels at the start of `data`.
    pub fn new(width: u32, data: &'a [u8]) -> (ctx: Self)
        requires
            data@.len() * 8 + 200 <= usize::MAX,
        ensures
            ctx.wf(),
            ctx.bytes() == data@,
            ctx.line_width() == width,
            ctx.regs() == mmr_start(data@),
            mmr_avail(data@, ctx.regs()) == 8 * data@.len(),
    {
        let mut ctx = MmrCtx { data, width, data_index: 0, bit_index: 32, word: 0, consumed_bits: 0 };
        let ghost r0 = ctx.regs();
        while ctx.bit_index >= 8 && ctx.data_index < ctx.data.len()
            invariant
                ctx.data@ == data@,
                ctx.width == width,
                ctx.consumed_bits == 0,
                ctx.data_index <= data@.len(),
                8 <= ctx.bit_index + 8 * ctx.data_index,
                ctx.bit_index + 8 * ctx.data_index == 32,
                mmr_refill(data@, ctx.regs()) == mmr_refill(data@, r0),
            decreases data@.len() - ctx.data_index,
        {
            ctx.bit_index -= 8;
            ctx.word |= (ctx.data[ctx.data_index] as u32) << ctx.bit_index;
            ctx.data_index += 1;
        }
        proof {
            let rz = MmrRegs { data_index: 0, bit_index: 32, word: 0, consumed_bits: 0 };
            lemma_refill_ok(data@, rz);
        }
        ctx
    }

    /// Consume `n` bits and load more bytes.
    pub fn consume(&mut self, n: u32)
        requires
            old(self).wf(),
            n <= 24,
            mmr_avail(old(self).bytes(), old(self).regs()) - n >= -68,
        ensures
            final(self).wf(),
            final(self).bytes() == old(self).bytes(),
            final(self).line_width() == old(self).line_width(),
            final(self).regs() == mmr_consume(old(self).bytes(), old(self).regs(), n),
            mmr_avail(final(self).bytes(), final(self).regs()) == mmr_avail(old(self).bytes(), old(self).regs()) - n,
    {
        let ghost d = self.data@;
        let ghost r_old = self.regs();
        self.consumed_bits += n as usize;
        let max = self.data.len() * 8;
        if self.consumed_bits > max {
            self.consumed_bits = max;
        }
        proof {
            if r_old.bit_index < 32 {
                lemma_shift_low_zero(r_old.word, r_old.bit_index, n);
            }
            if r_old.bit_index >= 32 {
                assert(0u32 << n == 0) by (bit_vector);
            }
        }
        self.word <<= n;
        self.bit_index += n;
        let ghost r1 = self.regs();
        proof {
            lemma_refill_ok(d, r1);
        }
        while self.bit_index >= 8 && self.data_index < self.data.len()
            invariant
                self.data@ == d,
                self.width == old(self).width,
                self.data_index <= d.len(),
                self.data_index < d.len() ==> self.bit_index < 32,
                mmr_refill(d, self.regs()) == mmr_refill(d, r1),
            decreases d.len() - self.data_index,
        {
            self.bit_index -= 8;
            self.word |= (self.data[self.data_index] as u32) << self.bit_index;
            self.data_index += 1;
        }
    }

    /// Bytes consumed, counting a partly consumed byte.
    pub fn consumed_bytes(&self) -> (n: usize)
        requires
            self.wf(),
        ensures
            n == (self.regs().consumed_bits + 7) / 8,
    {
        (self.consumed_bits + 7) / 8
    }
}

/// Look up the code at the top of the window `word` in a two-level table with
/// `initial`-bit first level: the value and the number of bits the code takes; an index
/// past the table gives `ERROR` and takes no bits.
pub open spec fn code_lookup(vals: Seq<i16>, bits: Seq<u8>, initial: u32, word: u32) -> (i16, u32) {
    let ix = (word >> ((32 - initial) as u32)) as int;
    if ix >= vals.len() {
        (ERROR, 0)
    } else if bits[ix] as u32 > initial {
        let n = bits[ix] as u32;
        let mask = ((1u32 << ((32 - initial) as u32)) - 1) as u32;
        let rem = (word & mask) >> ((32 - n) as u32);
        let sub = vals[ix] as int + rem as int;
        if sub >= vals.len() {
            (ERROR, 0)
        } else {
            (vals[sub], (initial + bits[sub]) as u32)
        }
    } else {
        (vals[ix], bits[ix] as u32)
    }
}

proof fn lemma_code_lookup_bounds(vals: Seq<i16>, bits: Seq<u8>, initial: u32, word: u32)
    requires
        code_table_ok(vals, bits, initial),
    ensures
        code_lookup(vals, bits, initial, word).1 <= 21,
        code_lookup(vals, bits, initial, word).0 >= -3,
        code_lookup(vals, bits, initial, word).0 >= 0 ==> code_lookup(vals, bits, initial, word).1 >= 1,
{
    vstd::arithmetic::power2::lemma2_to64();
    let ix = word >> ((32 - initial) as u32);
    assert(1 <= initial <= 8 ==> word >> ((32 - initial) as u32) < (1u32 << initial)) by (bit_vector);
    vstd::bits::lemma_u32_shl_is_mul(1, initial);
    let n = bits[ix as int];
    if n as u32 > initial {
        let mask = ((1u32 << ((32 - initial) as u32)) - 1) as u32;
        let rem = (word & mask) >> ((32 - n) as u32);
        assert(vals[ix as int] >= 0);
        let sub = vals[ix as int] as int + rem as int;
        if sub < vals.len() {
            assert(bits[sub] <= 13);
        }
    } else {
        assert(vals[ix as int] >= 0 ==> bits[ix as int] >= 1);
    }
}

/// Decode one code with a two-level table.
fn get_code(mmr: &mut MmrCtx, vals: &[i16], bits: &[u8], initial_bits: u32) -> (v: i16)
    requires
        old(mmr).wf(),
        code_table_ok(vals@, bits@, initial_bits),
        mmr_avail(old(mmr).bytes(), old(mmr).regs()) >= -47,
    ensures
        final(mmr).wf(),
        final(mmr).bytes() == old(mmr).bytes(),
        final(mmr).line_width() == old(mmr).line_width(),
        v == code_lookup(vals@, bits@, initial_bits, old(mmr).regs().word).0,
        final(mmr).regs() == mmr_consume(
            old(mmr).bytes(),
            old(mmr).regs(),
            code_lookup(vals@, bits@, initial_bits, old(mmr).regs().word).1,
        ),
        mmr_avail(final(mmr).bytes(), final(mmr).regs()) == mmr_avail(old(mmr).bytes(), old(mmr).regs())
            - code_lookup(vals@, bits@, initial_bits, old(mmr).regs().word).1,
{
    proof {
        lemma_code_lookup_bounds(vals@, bits@, initial_bits, mmr.regs().word);
        vstd::arithmetic::power2::lemma2_to64();
        vstd::bits::lemma_u32_shl_is_mul(1, initial_bits);
    }
    let word = mmr.word;
    assert((1 <= initial_bits <= 8 ==> word >> ((32 - initial_bits) as u32) < (1u32 << initial_bits) && (1u32 << ((32
        - initial_bits) as u32)) >= 1) && word << 0u32 == word) by (bit_vector);
    let table_ix = (mmr.word >> (32 - initial_bits)) as usize;
    if table_ix >= vals.len() {
        proof {
            lemma_refill_ok(mmr.bytes(), mmr.regs());
        }
        return ERROR;
    }
    let mut val = vals[table_ix];
    let mut n_bits = bits[table_ix] as u32;
    if n_bits > initial_bits {
        let mask = (1u32 << (32 - initial_bits)) - 1;
        let wm = mmr.word & mask;
        assert(n_bits <= 13 ==> wm >> ((32 - n_bits) as u32) < 8192) by (bit_vector);
        assert(vals@[table_ix as int] >= 0);
        let remaining = (mmr.word & mask) >> (32 - n_bits);
        let sub_ix = val as usize + remaining as usize;
        if sub_ix >= vals.len() {
            proof {
                lemma_refill_ok(mmr.bytes(), mmr.regs());
            }
            return ERROR;
        }
        val = vals[sub_ix];
        n_bits = initial_bits + bits[sub_ix] as u32;
    }
    mmr.consume(n_bits);
    val
}

/// A run length: the sum of makeup codes up to and including the first terminating code
/// (below 64), in 32-bit wrapping arithmetic; `None` for an invalid code. At most `fuel`
/// codes are read.
pub open spec fn spec_run(
    d: Seq<u8>,
    vals: Seq<i16>,
    bits: Seq<u8>,
    initial: u32,
    r: MmrRegs,
    total: u32,
    fuel: nat,
) -> Option<(MmrRegs, u32)>
    decreases fuel,
{
    if fuel == 0 {
        None
    } else {
        let (v, n) = code_lookup(vals, bits, initial, r.word);
        let r2 = mmr_consume(d, r, n);
        if v == ERROR || v == UNCOMPRESSED || v == ZEROES {
            None
        } else {
            let t = total.wrapping_add(v as u32);
            if v < 64 {
                Some((r2, t))
            } else {
                spec_run(d, vals, bits, initial, r2, t, (fuel - 1) as nat)
            }
        }
    }
}

/// The tables of white and black runs: an all-zero window gives no makeup code.
pub proof fn lemma_run_tables()
    ensures
        code_table_ok(white_vals(), white_bits(), 8),
        code_table_ok(black_vals(), black_bits(), 7),
        code_lookup(white_vals(), white_bits(), 8, 0).0 < 64,
        code_lookup(black_vals(), black_bits(), 7, 0).0 < 64,
        WHITE_VALS@ == white_vals(),
        WHITE_BITS@ == white_bits(),
        BLACK_VALS@ == black_vals(),
        BLACK_BITS@ == black_bits(),
{
    lemma_mmr_tables();
    assert(0u32 >> 24u32 == 0 && 0u32 >> 25u32 == 0 && forall|m: u32, k: u32| k < 32 ==> (0u32 & m) >> k == 0)
        by (bit_vector);
}

/// Decode a run length.
fn get_run(mmr: &mut MmrCtx, vals: &[i16], bits: &[u8], initial_bits: u32) -> (r: Result<u32, Jbig2Error>)
    requires
        old(mmr).wf(),
        code_table_ok(vals@, bits@, initial_bits),
        code_lookup(vals@, bits@, initial_bits, 0).0 < 64,
        mmr_avail(old(mmr).bytes(), old(mmr).regs()) >= -47,
    ensures
        final(mmr).wf(),
        final(mmr).bytes() == old(mmr).bytes(),
        final(mmr).line_width() == old(mmr).line_width(),
        match spec_run(
            old(mmr).bytes(),
            vals@,
            bits@,
            initial_bits,
            old(mmr).regs(),
            0,
            (mmr_avail(old(mmr).bytes(), old(mmr).regs()) + 64) as nat,
        ) {
            None => r matches Err(e) && e is InvalidData,
            Some((r2, t)) => r == Ok::<u32, Jbig2Error>(t) && final(mmr).regs() == r2,
        },
        mmr_avail(final(mmr).bytes(), final(mmr).regs()) <= mmr_avail(old(mmr).bytes(), old(mmr).regs()),
        r is Ok ==> mmr_avail(final(mmr).bytes(), final(mmr).regs()) >= if mmr_avail(old(mmr).bytes(), old(mmr).regs()) < -20 {
            mmr_avail(old(mmr).bytes(), old(mmr).regs()) - 21
        } else {
            -41
        },
{
    let ghost d = mmr.bytes();
    let ghost r0 = mmr.regs();
    let ghost a0 = mmr_avail(d, r0);
    let ghost f0 = (a0 + 64) as nat;
    let ghost lo: int = if a0 < -20 { a0 } else { -20 };
    let ghost mut f: nat = f0;
    let mut total: u32 = 0;
    let mut res: Result<u32, Jbig2Error> = Ok(0);
    loop
        invariant_except_break
            mmr_avail(d, mmr.regs()) >= lo,
            f >= mmr_avail(d, mmr.regs()) + 64,
            spec_run(d, vals@, bits@, initial_bits, mmr.regs(), total, f) == spec_run(d, vals@, bits@, initial_bits, r0, 0, f0),
        invariant
            mmr.wf(),
            mmr.bytes() == d,
            mmr.line_width() == old(mmr).line_width(),
            code_table_ok(vals@, bits@, initial_bits),
            code_lookup(vals@, bits@, initial_bits, 0).0 < 64,
            -47 <= lo <= -20,
            lo == if a0 < -20 { a0 } else { -20 },
            mmr_avail(d, mmr.regs()) <= a0,
        ensures
            match spec_run(d, vals@, bits@, initial_bits, r0, 0, f0) {
                None => res matches Err(e) && e is InvalidData,
                Some((r2, t)) => res == Ok::<u32, Jbig2Error>(t) && mmr.regs() == r2,
            },
            res is Ok ==> mmr_avail(d, mmr.regs()) >= lo - 21,
        decreases mmr_avail(d, mmr.regs()) + 64,
    {
        let ghost rb = mmr.regs();
        proof {
            lemma_code_lookup_bounds(vals@, bits@, initial_bits, rb.word);
        }
        let val = get_code(mmr, vals, bits, initial_bits);
        if val == ERROR || val == UNCOMPRESSED || val == ZEROES {
            res = Err(Jbig2Error::InvalidData("invalid MMR run code".to_owned()));
            break;
        }
        total = total.wrapping_add(val as u32);
        if val < 64 {
            res = Ok(total);
            break;
        }
        proof {
            if rb.word == 0 {
                assert(false);
            }
            lemma_nonzero_avail(d, rb);
            f = (f - 1) as nat;
        }
    }
    res
}

/// "No position yet": a0 before the first changing element of a line.
pub const MINUS1: u32 = 0xFFFF_FFFF;

/// Pixel `x` of a line, 0 past its end.
fn getbit(line: &[u8], x: u32) -> (b: u8)
    ensures
        b == stream_bit(line@, x as int),
        b <= 1,
{
    let byte_idx = (x >> 3u32) as usize;
    assert(x >> 3u32 == x / 8 && x & 7 == x % 8 && forall|v: u8, t: u8| #[trigger] ((v >> t) & 1) <= 1) by (bit_vector);
    if byte_idx >= line.len() {
        return 0;
    }
    let v = line[byte_idx];
    let k = (x & 7) as u8;
    let t: u8 = 7 - k;
    assert((v >> t) & 1 <= 1);
    (v >> t) & 1
}

/// The first position from `p` on, before `w`, whose pixel in `line` differs from `a`;
/// `w` if none.
pub open spec fn first_change(line: Seq<u8>, p: int, w: int, a: u8) -> int
    decreases w - p,
{
    if p >= w {
        w
    } else if stream_bit(line, p) != a {
        p
    } else {
        first_change(line, p + 1, w, a)
    }
}

proof fn lemma_first_change_range(line: Seq<u8>, p: int, w: int, a: u8)
    ensures
        p <= w ==> p <= first_change(line, p, w, a) <= w,
        p > w ==> first_change(line, p, w, a) == w,
    decreases w - p,
{
    if p < w && stream_bit(line, p) == a {
        lemma_first_change_range(line, p + 1, w, a);
    }
}

/// The next changing element of the reference line after `x` (T.6 b1/b2 search): the
/// first pixel after `x` whose colour differs from that at `x` (from position 0 with
/// colour white when `x` is `MINUS1`); `w` without a reference line or when none.
pub open spec fn changing_element(line: Option<Seq<u8>>, x: u32, w: u32) -> u32 {
    match line {
        None => w,
        Some(l) => if x == MINUS1 {
            first_change(l, 0, w as int, 0) as u32
        } else if x < w {
            first_change(l, x + 1, w as int, stream_bit(l, x as int)) as u32
        } else {
            x
        },
    }
}

/// The next changing element after `x` whose pixel has colour `color`.
pub open spec fn changing_element_of_color(line: Option<Seq<u8>>, x: u32, w: u32, color: u8) -> u32 {
    match line {
        None => w,
        Some(l) => {
            let pos = changing_element(line, x, w);
            if pos < w && stream_bit(l, pos as int) != color {
                changing_element(line, pos, w)
            } else {
                pos
            }
        },
    }
}

proof fn lemma_changing_element_range(line: Option<Seq<u8>>, x: u32, w: u32)
    ensures
        x < w || x == MINUS1 ==> changing_element(line, x, w) <= w,
        line is Some && x != MINUS1 && x < w ==> x < changing_element(line, x, w),
        line is Some && x != MINUS1 && x >= w ==> changing_element(line, x, w) == x,
{
    match line {
        None => {},
        Some(l) => {
            if x == MINUS1 {
                lemma_first_change_range(l, 0, w as int, 0);
            } else if x < w {
                lemma_first_change_range(l, x + 1, w as int, stream_bit(l, x as int));
            }
        },
    }
}

/// The bytes of an optional reference line.
pub open spec fn opt_view(line: Option<&[u8]>) -> Option<Seq<u8>> {
    match line {
        Some(l) => Some(l@),
        None => None,
    }
}

/// Find the next changing element of the reference line after `x`.
#[verifier::rlimit(50)]
fn find_changing_element(line: Option<&[u8]>, x: u32, w: u32) -> (r: u32)
    ensures
        r == changing_element(opt_view(line), x, w),
{
    let l = match line {
        Some(l) => l,
        None => {
            return w;
        },
    };
    if x != MINUS1 && x >= w {
        return x;
    }
    let a: u8 = if x == MINUS1 {
        0
    } else {
        getbit(l, x)
    };
    let mut p: u32 = if x == MINUS1 {
        0
    } else {
        x + 1
    };
    let ghost p0 = p;
    assert(changing_element(opt_view(line), x, w) == first_change(l@, p0 as int, w as int, a) as u32);
    let mut res: u32 = w;
    while p < w
        invariant_except_break
            p0 <= p <= w,
            res == w,
            first_change(l@, p as int, w as int, a) == first_change(l@, p0 as int, w as int, a),
        ensures
            res == first_change(l@, p0 as int, w as int, a),
        decreases w - p,
    {
        if getbit(l, p) != a {
            res = p;
            break;
        }
        p += 1;
    }
    res
}

/// Find the next changing element after `x` of colour `color`.
fn find_changing_element_of_color(line: Option<&[u8]>, x: u32, w: u32, color: u8) -> (r: u32)
    ensures
        r == changing_element_of_color(opt_view(line), x, w, color),
{
    if line.is_none() {
        return w;
    }
    let mut pos = find_changing_element(line, x, w);
    if pos < w && getbit(line.unwrap(), pos) != color {
        pos = find_changing_element(line, pos, w);
    }
    pos
}

/// Masks of the bits from position `b` to the end of a byte.
pub const LM: [u8; 8] = [0xFF, 0x7F, 0x3F, 0x1F, 0x0F, 0x07, 0x03, 0x01];

/// Masks of the bits before position `b` of a byte.
pub const RM: [u8; 8] = [0x00, 0x80, 0xC0, 0xE0, 0xF0, 0xF8, 0xFC, 0xFE];

proof fn lemma_masks(b: int, k: int)
    requires
        0 <= b < 8,
        0 <= k < 8,
    ensures
        bit_of(LM@[b], k) == if k >= b { 1u8 } else { 0u8 },
        bit_of(RM@[b], k) == if k < b { 1u8 } else { 0u8 },
{
    assert(LM@ == seq![0xFFu8, 0x7F, 0x3F, 0x1F, 0x0F, 0x07, 0x03, 0x01]);
    assert(RM@ == seq![0x00u8, 0x80, 0xC0, 0xE0, 0xF0, 0xF8, 0xFC, 0xFE]);
    let t = (7 - k) as u8;
    let bb = b as u8;
    let lm = LM@[b];
    let rm = RM@[b];
    assert(((lm >> t) & 1u8) == (if 7 - t >= bb { 1u8 } else { 0u8 }) && ((rm >> t) & 1u8) == (if 7 - t < bb {
        1u8
    } else {
        0u8
    })) by (bit_vector)
        requires
            t < 8,
            bb < 8,
            bb == 0 ==> lm == 0xFF,
            bb == 1 ==> lm == 0x7F,
            bb == 2 ==> lm == 0x3F,
            bb == 3 ==> lm == 0x1F,
            bb == 4 ==> lm == 0x0F,
            bb == 5 ==> lm == 0x07,
            bb == 6 ==> lm == 0x03,
            bb == 7 ==> lm == 0x01,
            bb == 0 ==> rm == 0x00,
            bb == 1 ==> rm == 0x80,
            bb == 2 ==> rm == 0xC0,
            bb == 3 ==> rm == 0xE0,
            bb == 4 ==> rm == 0xF0,
            bb == 5 ==> rm == 0xF8,
            bb == 6 ==> rm == 0xFC,
            bb == 7 ==> rm == 0xFE,
    ;
}

proof fn lemma_bit_or(x: u8, m: u8, k: int)
    requires
        0 <= k < 8,
    ensures
        bit_of(x | m, k) == if bit_of(m, k) == 1 { 1u8 } else { bit_of(x, k) },
{
    let t = (7 - k) as u8;
    assert(t < 8 ==> ((x | m) >> t) & 1u8 == if (m >> t) & 1u8 == 1 { 1u8 } else { (x >> t) & 1u8 }) by (bit_vector);
}

pub(crate) proof fn lemma_bit_and(x: u8, m: u8, k: int)
    requires
        0 <= k < 8,
    ensures
        bit_of(x & m, k) == if bit_of(m, k) == 1 { bit_of(x, k) } else { 0u8 },
{
    let t = (7 - k) as u8;
    assert(t < 8 ==> ((x & m) >> t) & 1u8 == if (m >> t) & 1u8 == 1 { (x >> t) & 1u8 } else { 0u8 }) by (bit_vector);
}

/// 1 when pixel `8 * i + k` lies in `x0 .. x1`.
pub open spec fn in_range(i: int, k: int, x0: int, x1: int) -> u8 {
    if x0 <= 8 * i + k < x1 {
        1
    } else {
        0
    }
}

/// Byte `i` of a line with pixels `x0 .. x1` set black.
pub open spec fn fill_byte(b: u8, i: int, x0: int, x1: int) -> u8 {
    b | ((in_range(i, 0, x0, x1) * 128 + in_range(i, 1, x0, x1) * 64 + in_range(i, 2, x0, x1) * 32 + in_range(i, 3, x0, x1)
        * 16 + in_range(i, 4, x0, x1) * 8 + in_range(i, 5, x0, x1) * 4 + in_range(i, 6, x0, x1) * 2 + in_range(i, 7, x0, x1))
        as u8)
}

/// A line with pixels `x0 .. x1` set black (those inside the line).
pub open spec fn fill_line(line: Seq<u8>, x0: int, x1: int) -> Seq<u8> {
    Seq::new(line.len(), |i: int| fill_byte(line[i], i, x0, x1))
}

proof fn lemma_fill_byte(b: u8, i: int, x0: int, x1: int, k: int)
    requires
        0 <= k < 8,
    ensures
        bit_of(fill_byte(b, i, x0, x1), k) == if in_range(i, k, x0, x1) == 1 { 1u8 } else { bit_of(b, k) },
{
    let m0 = in_range(i, 0, x0, x1);
    let m1 = in_range(i, 1, x0, x1);
    let m2 = in_range(i, 2, x0, x1);
    let m3 = in_range(i, 3, x0, x1);
    let m4 = in_range(i, 4, x0, x1);
    let m5 = in_range(i, 5, x0, x1);
    let m6 = in_range(i, 6, x0, x1);
    let m7 = in_range(i, 7, x0, x1);
    let m = (m0 * 128 + m1 * 64 + m2 * 32 + m3 * 16 + m4 * 8 + m5 * 4 + m6 * 2 + m7) as u8;
    let t = (7 - k) as u8;
    assert((m >> t) & 1u8 == if t == 7 { m0 } else if t == 6 { m1 } else if t == 5 { m2 } else if t == 4 { m3 } else if t
        == 3 { m4 } else if t == 2 { m5 } else if t == 1 { m6 } else { m7 }) by (bit_vector)
        requires
            m0 <= 1,
            m1 <= 1,
            m2 <= 1,
            m3 <= 1,
            m4 <= 1,
            m5 <= 1,
            m6 <= 1,
            m7 <= 1,
            t < 8,
            m == (m0 * 128 + m1 * 64 + m2 * 32 + m3 * 16 + m4 * 8 + m5 * 4 + m6 * 2 + m7) as u8,
    ;
    lemma_bit_or(b, m, k);
}

/// Bit `p` of a filled line.
proof fn lemma_fill_line_bit(line: Seq<u8>, x0: int, x1: int, p: int)
    requires
        0 <= p < 8 * line.len(),
    ensures
        stream_bit(fill_line(line, x0, x1), p) == if x0 <= p < x1 { 1u8 } else { stream_bit(line, p) },
{
    let i = p / 8;
    let k = p % 8;
    assert(p == 8 * i + k);
    lemma_fill_byte(line[i], i, x0, x1, k);
}

/// A line whose bits are those of `line` with `x0 .. x1` set black is `fill_line`.
proof fn lemma_fill_line_ext(line: Seq<u8>, out: Seq<u8>, x0: int, x1: int)
    requires
        out.len() == line.len(),
        forall|p: int|
            0 <= p < 8 * line.len() ==> #[trigger] stream_bit(out, p) == if x0 <= p < x1 {
                1u8
            } else {
                stream_bit(line, p)
            },
    ensures
        out == fill_line(line, x0, x1),
{
    let f = fill_line(line, x0, x1);
    assert forall|i: int| 0 <= i < out.len() implies out[i] == f[i] by {
        assert forall|k: int| 0 <= k < 8 implies bit_of(out[i], k) == bit_of(f[i], k) by {
            let p = 8 * i + k;
            assert(p / 8 == i && p % 8 == k);
            assert(stream_bit(out, p) == bit_of(out[i], k));
            lemma_fill_line_bit(line, x0, x1, p);
        }
        crate::image::lemma_byte_ext(out[i], f[i]);
    }
    assert(out =~= f);
}

/// Set pixels `x0` to `x1 - 1` of a line black (those inside the line).
#[verifier::rlimit(60)]
fn set_bits(line: &mut [u8], x0: u32, x1: u32)
    ensures
        final(line)@ == fill_line(old(line)@, x0 as int, x1 as int),
        final(line)@.len() == old(line)@.len(),
        forall|p: int|
            0 <= p < 8 * old(line)@.len() ==> #[trigger] stream_bit(final(line)@, p) == if x0 <= p < x1 {
                1u8
            } else {
                stream_bit(old(line)@, p)
            },
{
    let ghost old_line = line@;
    if x0 >= x1 {
        proof {
            lemma_fill_line_ext(old_line, line@, x0 as int, x1 as int);
        }
        return;
    }
    let a0 = (x0 >> 3u32) as usize;
    let a1 = (x1 >> 3u32) as usize;
    let b0 = (x0 & 7) as usize;
    let b1 = (x1 & 7) as usize;
    assert(x0 >> 3u32 == x0 / 8 && x0 & 7 == x0 % 8 && x1 >> 3u32 == x1 / 8 && x1 & 7 == x1 % 8) by (bit_vector);
    assert(x0 == 8 * a0 + b0 && x1 == 8 * a1 + b1);
    if a0 == a1 {
        if a0 < line.len() {
            line[a0] = line[a0] | (LM[b0] & RM[b1]);
        }
        proof {
            assert forall|p: int| 0 <= p < 8 * old_line.len() implies #[trigger] stream_bit(line@, p) == if x0 <= p < x1 {
                1u8
            } else {
                stream_bit(old_line, p)
            } by {
                let i = p / 8;
                let k = p % 8;
                assert(p == 8 * i + k);
                if i == a0 {
                    lemma_bit_or(old_line[i], LM@[b0 as int] & RM@[b1 as int], k);
                    lemma_bit_and(LM@[b0 as int], RM@[b1 as int], k);
                    lemma_masks(b0 as int, k);
                    lemma_masks(b1 as int, k);
                } else {
                    assert(line@[i] == old_line[i]);
                }
            }
        }
    } else {
        if a0 < line.len() {
            line[a0] = line[a0] | LM[b0];
        }
        let ghost mid = line@;
        let end = if a1 < line.len() {
            a1
        } else {
            line.len()
        };
        let mut a = a0 + 1;
        while a < end
            invariant
                a0 < a1,
                a0 + 1 <= a,
                a <= end || a == a0 + 1,
                end <= mid.len(),
                end <= a1,
                line@.len() == mid.len(),
                forall|i: int| 0 <= i < mid.len() ==> #[trigger] line@[i] == if a0 < i < a {
                    0xFFu8
                } else {
                    mid[i]
                },
            decreases end - a,
        {
            line[a] = 0xFF;
            a += 1;
        }
        let ghost filled = line@;
        if b1 != 0 && a1 < line.len() {
            line[a1] = line[a1] | RM[b1];
        }
        proof {
            assert forall|p: int| 0 <= p < 8 * old_line.len() implies #[trigger] stream_bit(line@, p) == if x0 <= p < x1 {
                1u8
            } else {
                stream_bit(old_line, p)
            } by {
                let i = p / 8;
                let k = p % 8;
                assert(p == 8 * i + k);
                assert(filled[i] == if a0 < i < end { 0xFFu8 } else { mid[i] });
                if i == a0 {
                    assert(line@[i] == old_line[i] | LM@[b0 as int]);
                    lemma_bit_or(old_line[i], LM@[b0 as int], k);
                    lemma_masks(b0 as int, k);
                } else if a0 < i < a1 {
                    assert(line@[i] == 0xFFu8);
                    lemma_fill_bits(k);
                } else if i == a1 {
                    if b1 != 0 {
                        assert(line@[i] == old_line[i] | RM@[b1 as int]);
                        lemma_bit_or(old_line[i], RM@[b1 as int], k);
                    }
                    lemma_masks(b1 as int, k);
                } else {
                    assert(line@[i] == old_line[i]);
                }
            }
        }
    }
    proof {
        lemma_fill_line_ext(old_line, line@, x0 as int, x1 as int);
    }
}

/// The state of decoding one coded line: reader registers, a0, the colour of the current
/// run, and the line decoded so far.
pub struct MmrLineState {
    pub regs: MmrRegs,
    pub a0: u32,
    pub c: u8,
    pub line: Seq<u8>,
}

/// What one mode code does to a line: decoding goes on, stops (with the registers, the
/// line and whether EOFB was read), or fails on an invalid code.
pub enum MmrStep {
    Go(MmrLineState),
    Stop(MmrRegs, Seq<u8>, bool),
    Fail,
}

/// a0 with "no position yet" read as 0.
pub open spec fn start_a0(a0: u32) -> u32 {
    if a0 == MINUS1 {
        0
    } else {
        a0
    }
}

/// A run length budget: enough codes for all bits left.
pub open spec fn run_fuel(d: Seq<u8>, r: MmrRegs) -> nat {
    (mmr_avail(d, r) + 64) as nat
}

/// `a + b` in 32-bit wrapping arithmetic, at most `w`.
pub open spec fn run_end(a: u32, b: u32, w: u32) -> u32 {
    let e = a.wrapping_add(b);
    if e < w {
        e
    } else {
        w
    }
}

/// Horizontal mode: two runs of the current colour and the other one; the black run is
/// set in the line.
pub open spec fn horizontal_step(d: Seq<u8>, w: u32, st: MmrLineState) -> Option<MmrLineState> {
    let r1 = mmr_consume(d, st.regs, 3);
    let a0 = start_a0(st.a0);
    if st.c == 0 {
        match spec_run(d, white_vals(), white_bits(), 8, r1, 0, run_fuel(d, r1)) {
            None => None,
            Some((r2, white_run)) => match spec_run(d, black_vals(), black_bits(), 7, r2, 0, run_fuel(d, r2)) {
                None => None,
                Some((r3, black_run)) => {
                    let a1 = run_end(a0, white_run, w);
                    let a2 = run_end(a1, black_run, w);
                    Some(MmrLineState { regs: r3, a0: a2, c: st.c, line: fill_line(st.line, a1 as int, a2 as int) })
                },
            },
        }
    } else {
        match spec_run(d, black_vals(), black_bits(), 7, r1, 0, run_fuel(d, r1)) {
            None => None,
            Some((r2, black_run)) => match spec_run(d, white_vals(), white_bits(), 8, r2, 0, run_fuel(d, r2)) {
                None => None,
                Some((r3, white_run)) => {
                    let a1 = run_end(a0, black_run, w);
                    let a2 = run_end(a1, white_run, w);
                    Some(MmrLineState { regs: r3, a0: a2, c: st.c, line: fill_line(st.line, a0 as int, a1 as int) })
                },
            },
        }
    }
}

/// Pass mode: a0 moves to b2, the line black up to there when the current colour is black.
/// b1 is searched from a0; at the start of a line a0 is the imaginary white pixel before
/// the first one, so a changing element at 0 is found.
pub open spec fn pass_step(d: Seq<u8>, w: u32, refl: Option<Seq<u8>>, st: MmrLineState) -> MmrLineState {
    let r1 = mmr_consume(d, st.regs, 4);
    let a0 = start_a0(st.a0);
    let b1 = changing_element_of_color(refl, st.a0, w, (1 - st.c) as u8);
    let b2 = changing_element(refl, b1, w);
    MmrLineState {
        regs: r1,
        a0: b2,
        c: st.c,
        line: if st.c == 1 {
            fill_line(st.line, a0 as int, b2 as int)
        } else {
            st.line
        },
    }
}

/// Vertical mode with an `n`-bit code: a1 is b1 moved `right` pixels right (at most to
/// `w`) or `left` pixels left (not below 0); the run up to a1 is set when black, and the
/// colour changes. As in pass mode, b1 is searched from a0, the imaginary white pixel
/// before the line at its start.
pub open spec fn vertical_step(
    d: Seq<u8>,
    w: u32,
    refl: Option<Seq<u8>>,
    st: MmrLineState,
    n: u32,
    right: u32,
    left: u32,
) -> MmrLineState {
    let r1 = mmr_consume(d, st.regs, n);
    let a0 = start_a0(st.a0);
    let b = changing_element_of_color(refl, st.a0, w, (1 - st.c) as u8);
    let b1 = if left > 0 {
        if b >= left {
            (b - left) as u32
        } else {
            0u32
        }
    } else if right > 0 {
        if b + right < w {
            (b + right) as u32
        } else {
            w
        }
    } else {
        b
    };
    MmrLineState {
        regs: r1,
        a0: b1,
        c: (1 - st.c) as u8,
        line: if st.c == 1 && (left == 0 || b1 > a0) {
            fill_line(st.line, a0 as int, b1 as int)
        } else {
            st.line
        },
    }
}

/// One step of two-dimensional line decoding (T.6 2.2): stop at the end of the line,
/// else decode the mode code at the top of the window.
pub open spec fn line_step(d: Seq<u8>, w: u32, refl: Option<Seq<u8>>, st: MmrLineState) -> MmrStep {
    let word = st.regs.word;
    if st.a0 != MINUS1 && st.a0 >= w {
        MmrStep::Stop(st.regs, st.line, false)
    } else if word >> 29u32 == 1 {
        match horizontal_step(d, w, st) {
            Some(s) => MmrStep::Go(s),
            None => MmrStep::Fail,
        }
    } else if word >> 28u32 == 1 {
        MmrStep::Go(pass_step(d, w, refl, st))
    } else if word >> 31u32 == 1 {
        MmrStep::Go(vertical_step(d, w, refl, st, 1, 0, 0))
    } else if word >> 29u32 == 3 {
        MmrStep::Go(vertical_step(d, w, refl, st, 3, 1, 0))
    } else if word >> 26u32 == 3 {
        MmrStep::Go(vertical_step(d, w, refl, st, 6, 2, 0))
    } else if word >> 25u32 == 3 {
        MmrStep::Go(vertical_step(d, w, refl, st, 7, 3, 0))
    } else if word >> 29u32 == 2 {
        MmrStep::Go(vertical_step(d, w, refl, st, 3, 0, 1))
    } else if word >> 26u32 == 2 {
        MmrStep::Go(vertical_step(d, w, refl, st, 6, 0, 2))
    } else if word >> 25u32 == 2 {
        MmrStep::Go(vertical_step(d, w, refl, st, 7, 0, 3))
    } else if word >> 8u32 == 0x001001 {
        MmrStep::Stop(mmr_consume(d, st.regs, 24), st.line, true)
    } else {
        MmrStep::Stop(st.regs, st.line, false)
    }
}

/// Decoding goes on with a0 at `a1` and the colour other than `c`.
pub open spec fn moves_to(step: MmrStep, a1: int, c: u8) -> bool {
    step matches MmrStep::Go(n) && n.a0 == a1 && n.c == 1 - c
}

/// b1 moved `k` pixels right, at most to `w`.
pub open spec fn right_of(b1: u32, k: int, w: u32) -> int {
    if b1 + k < w { b1 + k } else { w as int }
}

/// b1 moved `k` pixels left, not below 0.
pub open spec fn left_of(b1: u32, k: int) -> int {
    if b1 >= k { b1 - k } else { 0 }
}

/// Vertical mode (T.4 4.2.1.3.2, Table 4): after the codes 1 (V0), 011, 000011 and
/// 0000011 (VR1 to VR3) a1 lies 0 to 3 pixels right of b1 (at most at the line's end),
/// after 010, 000010 and 0000010 (VL1 to VL3) 1 to 3 pixels left of it (not before the
/// line's start); a0 moves to a1 and the colour changes. b1 is the first changing element
/// of the reference line right of a0 with the colour opposite to the current one.
pub proof fn law_mmr_vertical_modes(d: Seq<u8>, w: u32, refl: Option<Seq<u8>>, st: MmrLineState)
    requires
        st.a0 == MINUS1 || st.a0 < w,
        st.c <= 1,
    ensures
        ({
            let b1 = changing_element_of_color(refl, st.a0, w, (1 - st.c) as u8);
            let word = st.regs.word;
            &&& word >> 31u32 == 1 ==> moves_to(line_step(d, w, refl, st), b1 as int, st.c)
            &&& word >> 29u32 == 3 ==> moves_to(line_step(d, w, refl, st), right_of(b1, 1, w), st.c)
            &&& word >> 26u32 == 3 ==> moves_to(line_step(d, w, refl, st), right_of(b1, 2, w), st.c)
            &&& word >> 25u32 == 3 ==> moves_to(line_step(d, w, refl, st), right_of(b1, 3, w), st.c)
            &&& word >> 29u32 == 2 ==> moves_to(line_step(d, w, refl, st), left_of(b1, 1), st.c)
            &&& word >> 26u32 == 2 ==> moves_to(line_step(d, w, refl, st), left_of(b1, 2), st.c)
            &&& word >> 25u32 == 2 ==> moves_to(line_step(d, w, refl, st), left_of(b1, 3), st.c)
        }),
{
    lemma_code_bits(st.regs.word);
}

/// Decode a line from state `st`, taking at most `fuel` steps: the registers after it,
/// the line, and whether EOFB ended it; `None` for an invalid code.
#[verifier::opaque]
pub open spec fn spec_line(d: Seq<u8>, w: u32, refl: Option<Seq<u8>>, st: MmrLineState, fuel: nat) -> Option<
    (MmrRegs, Seq<u8>, bool),
>
    decreases fuel,
{
    if fuel == 0 {
        None
    } else {
        match line_step(d, w, refl, st) {
            MmrStep::Go(s) => spec_line(d, w, refl, s, (fuel - 1) as nat),
            MmrStep::Stop(r, l, e) => Some((r, l, e)),
            MmrStep::Fail => None,
        }
    }
}

proof fn lemma_color_element_range(refl: Option<Seq<u8>>, x: u32, w: u32, c: u8)
    requires
        x == MINUS1 || x <= w,
    ensures
        changing_element_of_color(refl, x, w, c) <= w,
        x != MINUS1 && refl is Some ==> x <= changing_element_of_color(refl, x, w, c),
{
    lemma_changing_element_range(refl, x, w);
    let pos = changing_element(refl, x, w);
    lemma_changing_element_range(refl, pos, w);
}

/// Horizontal mode, after its code.
fn horizontal_mode(mmr: &mut MmrCtx, dst: &mut [u8], a0_in: u32, c: u8) -> (r: Result<u32, Jbig2Error>)
    requires
        old(mmr).wf(),
        mmr_avail(old(mmr).bytes(), old(mmr).regs()) >= 3,
        c <= 1,
    ensures
        final(dst)@.len() == old(dst)@.len(),
        final(mmr).wf(),
        final(mmr).bytes() == old(mmr).bytes(),
        final(mmr).line_width() == old(mmr).line_width(),
        match horizontal_step(
            old(mmr).bytes(),
            old(mmr).line_width(),
            MmrLineState { regs: old(mmr).regs(), a0: a0_in, c, line: old(dst)@ },
        ) {
            None => r matches Err(e) && e is InvalidData,
            Some(s2) => r == Ok::<u32, Jbig2Error>(s2.a0) && final(mmr).regs() == s2.regs && final(dst)@ == s2.line,
        },
        r is Ok ==> mmr_avail(final(mmr).bytes(), final(mmr).regs()) >= -62,
        mmr_avail(final(mmr).bytes(), final(mmr).regs()) < mmr_avail(old(mmr).bytes(), old(mmr).regs()),
        r matches Ok(v) ==> v <= old(mmr).line_width(),
{
    proof {
        lemma_run_tables();
    }
    mmr.consume(3);
    let a0 = if a0_in == MINUS1 {
        0
    } else {
        a0_in
    };
    let width = mmr.width;
    if c == 0 {
        let white_run = match get_run(mmr, &WHITE_VALS, &WHITE_BITS, 8) {
            Ok(v) => v,
            Err(e) => {
                return Err(e);
            },
        };
        let black_run = match get_run(mmr, &BLACK_VALS, &BLACK_BITS, 7) {
            Ok(v) => v,
            Err(e) => {
                return Err(e);
            },
        };
        let e1 = a0.wrapping_add(white_run);
        let a1 = if e1 < width {
            e1
        } else {
            width
        };
        let e2 = a1.wrapping_add(black_run);
        let a2 = if e2 < width {
            e2
        } else {
            width
        };
        set_bits(dst, a1, a2);
        Ok(a2)
    } else {
        let black_run = match get_run(mmr, &BLACK_VALS, &BLACK_BITS, 7) {
            Ok(v) => v,
            Err(e) => {
                return Err(e);
            },
        };
        let white_run = match get_run(mmr, &WHITE_VALS, &WHITE_BITS, 8) {
            Ok(v) => v,
            Err(e) => {
                return Err(e);
            },
        };
        let e1 = a0.wrapping_add(black_run);
        let a1 = if e1 < width {
            e1
        } else {
            width
        };
        let e2 = a1.wrapping_add(white_run);
        let a2 = if e2 < width {
            e2
        } else {
            width
        };
        set_bits(dst, a0, a1);
        Ok(a2)
    }
}

/// Pass mode, after its code.
fn pass_mode(mmr: &mut MmrCtx, ref_line: Option<&[u8]>, dst: &mut [u8], a0_in: u32, c: u8) -> (a0: u32)
    requires
        old(mmr).wf(),
        mmr_avail(old(mmr).bytes(), old(mmr).regs()) >= 4,
        c <= 1,
    ensures
        final(dst)@.len() == old(dst)@.len(),
        final(mmr).wf(),
        final(mmr).bytes() == old(mmr).bytes(),
        final(mmr).line_width() == old(mmr).line_width(),
        ({
            let s2 = pass_step(
                old(mmr).bytes(),
                old(mmr).line_width(),
                opt_view(ref_line),
                MmrLineState { regs: old(mmr).regs(), a0: a0_in, c, line: old(dst)@ },
            );
            a0 == s2.a0 && final(mmr).regs() == s2.regs && final(dst)@ == s2.line
        }),
        mmr_avail(final(mmr).bytes(), final(mmr).regs()) >= 0,
        mmr_avail(final(mmr).bytes(), final(mmr).regs()) < mmr_avail(old(mmr).bytes(), old(mmr).regs()),
        a0_in == MINUS1 || a0_in <= old(mmr).line_width() ==> a0 <= old(mmr).line_width(),
{
    mmr.consume(4);
    let a0 = if a0_in == MINUS1 {
        0
    } else {
        a0_in
    };
    let width = mmr.width;
    let b1 = find_changing_element_of_color(ref_line, a0_in, width, 1 - c);
    let b2 = find_changing_element(ref_line, b1, width);
    proof {
        if a0_in == MINUS1 || a0_in <= width {
            lemma_color_element_range(opt_view(ref_line), a0_in, width, (1 - c) as u8);
            lemma_changing_element_range(opt_view(ref_line), b1, width);
        }
    }
    if c == 1 {
        set_bits(dst, a0, b2);
    }
    b2
}

/// Vertical mode with an `n`-bit code, after the code.
fn vertical_mode(
    mmr: &mut MmrCtx,
    ref_line: Option<&[u8]>,
    dst: &mut [u8],
    a0_in: u32,
    c: u8,
    n: u32,
    right: u32,
    left: u32,
) -> (a0: u32)
    requires
        old(mmr).wf(),
        mmr_avail(old(mmr).bytes(), old(mmr).regs()) >= n - 1,
        1 <= n <= 7,
        right <= 3,
        left <= 3,
        c <= 1,
        a0_in == MINUS1 || a0_in < old(mmr).line_width(),
        old(mmr).line_width() + 7 <= u32::MAX,
    ensures
        final(dst)@.len() == old(dst)@.len(),
        final(mmr).wf(),
        final(mmr).bytes() == old(mmr).bytes(),
        final(mmr).line_width() == old(mmr).line_width(),
        ({
            let s2 = vertical_step(
                old(mmr).bytes(),
                old(mmr).line_width(),
                opt_view(ref_line),
                MmrLineState { regs: old(mmr).regs(), a0: a0_in, c, line: old(dst)@ },
                n,
                right,
                left,
            );
            a0 == s2.a0 && final(mmr).regs() == s2.regs && final(dst)@ == s2.line
        }),
        mmr_avail(final(mmr).bytes(), final(mmr).regs()) >= -1,
        mmr_avail(final(mmr).bytes(), final(mmr).regs()) < mmr_avail(old(mmr).bytes(), old(mmr).regs()),
        a0 <= old(mmr).line_width(),
{
    mmr.consume(n);
    let a0 = if a0_in == MINUS1 {
        0
    } else {
        a0_in
    };
    let width = mmr.width;
    let b = find_changing_element_of_color(ref_line, a0_in, width, 1 - c);
    proof {
        lemma_color_element_range(opt_view(ref_line), a0_in, width, (1 - c) as u8);
    }
    let b1 = if left > 0 {
        if b >= left {
            b - left
        } else {
            0
        }
    } else if right > 0 {
        if b + right < width {
            b + right
        } else {
            width
        }
    } else {
        b
    };
    if c == 1 && (left == 0 || b1 > a0) {
        set_bits(dst, a0, b1);
    }
    b1
}

proof fn lemma_code_bits(w: u32)
    by (bit_vector)
    ensures
        w >> 29u32 == 1 ==> (w >> 29u32) & 1 == 1,
        w >> 28u32 == 1 ==> (w >> 28u32) & 1 == 1,
        w >> 31u32 == 1 ==> (w >> 31u32) & 1 == 1,
        w >> 29u32 == 3 ==> (w >> 29u32) & 1 == 1,
        w >> 26u32 == 3 ==> (w >> 26u32) & 1 == 1,
        w >> 25u32 == 3 ==> (w >> 25u32) & 1 == 1,
        w >> 29u32 == 2 ==> (w >> 30u32) & 1 == 1,
        w >> 26u32 == 2 ==> (w >> 27u32) & 1 == 1,
        w >> 25u32 == 2 ==> (w >> 26u32) & 1 == 1,
        w >> 8u32 == 0x001001 ==> (w >> 8u32) & 1 == 1,
        w >> 31u32 == 1 ==> w >> 29u32 != 1 && w >> 28u32 != 1,
        w >> 28u32 == 1 ==> w >> 29u32 != 1,
        w >> 29u32 == 3 ==> w >> 28u32 != 1 && w >> 31u32 != 1,
        w >> 26u32 == 3 ==> w >> 29u32 != 1 && w >> 28u32 != 1 && w >> 31u32 != 1 && w >> 29u32 != 3,
        w >> 25u32 == 3 ==> w >> 29u32 != 1 && w >> 28u32 != 1 && w >> 31u32 != 1 && w >> 29u32 != 3 && w >> 26u32
            != 3,
        w >> 29u32 == 2 ==> w >> 28u32 != 1 && w >> 31u32 != 1 && w >> 26u32 != 3 && w >> 25u32 != 3,
        w >> 26u32 == 2 ==> w >> 29u32 != 1 && w >> 28u32 != 1 && w >> 31u32 != 1 && w >> 29u32 != 3 && w >> 26u32
            != 3 && w >> 25u32 != 3 && w >> 29u32 != 2,
        w >> 25u32 == 2 ==> w >> 29u32 != 1 && w >> 28u32 != 1 && w >> 31u32 != 1 && w >> 29u32 != 3 && w >> 26u32
            != 3 && w >> 25u32 != 3 && w >> 29u32 != 2 && w >> 26u32 != 2,
{
}

/// Pass mode (T.4 4.2.1.3.2, code 0001): a0 moves to b2, the changing element of the
/// reference line after b1, and the colour stays; the pixels passed over take the
/// current colour.
pub proof fn law_mmr_pass_mode(d: Seq<u8>, w: u32, refl: Option<Seq<u8>>, st: MmrLineState)
    requires
        st.a0 == MINUS1 || st.a0 < w,
        st.c <= 1,
        st.regs.word >> 28u32 == 1,
    ensures
        ({
            let b1 = changing_element_of_color(refl, st.a0, w, (1 - st.c) as u8);
            let b2 = changing_element(refl, b1, w);
            line_step(d, w, refl, st) matches MmrStep::Go(n) && n.a0 == b2 && n.c == st.c && n.line == if st.c
                == 1 {
                fill_line(st.line, start_a0(st.a0) as int, b2 as int)
            } else {
                st.line
            }
        }),
{
    lemma_code_bits(st.regs.word);
}

/// What a mode code left to do: go on with a0 and the colour, or end the line (with
/// whether EOFB was read).
enum LineStep {
    Next(u32, u8),
    End(bool),
}

/// Decode one mode code of a line at a0 with current colour `c` (one step of the loop of
/// `decode_mmr_line`).
#[verifier::spinoff_prover]
#[verifier::rlimit(100)]
fn mmr_step(mmr: &mut MmrCtx, ref_line: Option<&[u8]>, dst: &mut [u8], a0: u32, c: u8) -> (r: Result<LineStep, Jbig2Error>)
    requires
        old(mmr).wf(),
        mmr_avail(old(mmr).bytes(), old(mmr).regs()) >= -62,
        old(mmr).line_width() + 7 <= u32::MAX,
        c <= 1,
        a0 == MINUS1 || a0 <= old(mmr).line_width(),
    ensures
        final(dst)@.len() == old(dst)@.len(),
        final(mmr).wf(),
        final(mmr).bytes() == old(mmr).bytes(),
        final(mmr).line_width() == old(mmr).line_width(),
        match line_step(
            old(mmr).bytes(),
            old(mmr).line_width(),
            opt_view(ref_line),
            MmrLineState { regs: old(mmr).regs(), a0, c, line: old(dst)@ },
        ) {
            MmrStep::Go(s2) => r matches Ok(LineStep::Next(a1, c1)) && a1 == s2.a0 && c1 == s2.c && final(mmr).regs()
                == s2.regs && final(dst)@ == s2.line,
            MmrStep::Stop(r2, l2, e) => r matches Ok(LineStep::End(e1)) && e1 == e && final(mmr).regs() == r2
                && final(dst)@ == l2,
            MmrStep::Fail => r matches Err(e) && e is InvalidData,
        },
        r matches Ok(LineStep::Next(a1, c1)) ==> c1 <= 1 && (a1 == MINUS1 || a1 <= old(mmr).line_width())
            && mmr_avail(final(mmr).bytes(), final(mmr).regs()) >= -62 && mmr_avail(final(mmr).bytes(), final(mmr).regs())
            < mmr_avail(old(mmr).bytes(), old(mmr).regs()),
        r matches Ok(LineStep::End(_)) ==> mmr_avail(final(mmr).bytes(), final(mmr).regs()) >= -62,
{
    let width = mmr.width;
    if a0 != MINUS1 && a0 >= width {
        return Ok(LineStep::End(false));
    }
    let word = mmr.word;
    let ghost d = mmr.bytes();
    let ghost r0 = mmr.regs();
    proof {
        lemma_code_bits(word);
    }
    if (word >> 29u32) == 1 {
        proof {
            lemma_bit_shows_avail(d, r0, 29);
        }
        match horizontal_mode(mmr, dst, a0, c) {
            Ok(v) => {
                proof {
                    lemma_run_tables();
                }
                Ok(LineStep::Next(v, c))
            },
            Err(e) => Err(e),
        }
    } else if (word >> 28u32) == 1 {
        proof {
            lemma_bit_shows_avail(d, r0, 28);
        }
        let a1 = pass_mode(mmr, ref_line, dst, a0, c);
        Ok(LineStep::Next(a1, c))
    } else if (word >> 31u32) == 1 {
        proof {
            lemma_bit_shows_avail(d, r0, 31);
        }
        let a1 = vertical_mode(mmr, ref_line, dst, a0, c, 1, 0, 0);
        Ok(LineStep::Next(a1, 1 - c))
    } else if (word >> 29u32) == 3 {
        proof {
            lemma_bit_shows_avail(d, r0, 29);
        }
        let a1 = vertical_mode(mmr, ref_line, dst, a0, c, 3, 1, 0);
        Ok(LineStep::Next(a1, 1 - c))
    } else if (word >> 26u32) == 3 {
        proof {
            lemma_bit_shows_avail(d, r0, 26);
        }
        let a1 = vertical_mode(mmr, ref_line, dst, a0, c, 6, 2, 0);
        Ok(LineStep::Next(a1, 1 - c))
    } else if (word >> 25u32) == 3 {
        proof {
            lemma_bit_shows_avail(d, r0, 25);
        }
        let a1 = vertical_mode(mmr, ref_line, dst, a0, c, 7, 3, 0);
        Ok(LineStep::Next(a1, 1 - c))
    } else if (word >> 29u32) == 2 {
        proof {
            lemma_bit_shows_avail(d, r0, 30);
        }
        let a1 = vertical_mode(mmr, ref_line, dst, a0, c, 3, 0, 1);
        Ok(LineStep::Next(a1, 1 - c))
    } else if (word >> 26u32) == 2 {
        proof {
            lemma_bit_shows_avail(d, r0, 27);
        }
        let a1 = vertical_mode(mmr, ref_line, dst, a0, c, 6, 0, 2);
        Ok(LineStep::Next(a1, 1 - c))
    } else if (word >> 25u32) == 2 {
        proof {
            lemma_bit_shows_avail(d, r0, 26);
        }
        let a1 = vertical_mode(mmr, ref_line, dst, a0, c, 7, 0, 3);
        Ok(LineStep::Next(a1, 1 - c))
    } else if (word >> 8u32) == 0x001001 {
        proof {
            lemma_bit_shows_avail(d, r0, 8);
        }
        mmr.consume(24);
        Ok(LineStep::End(true))
    } else {
        Ok(LineStep::End(false))
    }
}

/// Decode one coded line into `dst` (initially all white) against the reference line
/// `ref_line` (none for the first line); returns whether EOFB ended the data.
pub(crate) fn decode_mmr_line(mmr: &mut MmrCtx, ref_line: Option<&[u8]>, dst: &mut [u8]) -> (r: Result<bool, Jbig2Error>)
    requires
        old(mmr).wf(),
        mmr_avail(old(mmr).bytes(), old(mmr).regs()) >= -62,
        old(mmr).line_width() + 7 <= u32::MAX,
    ensures
        final(dst)@.len() == old(dst)@.len(),
        final(mmr).wf(),
        final(mmr).bytes() == old(mmr).bytes(),
        final(mmr).line_width() == old(mmr).line_width(),
        match spec_line(
            old(mmr).bytes(),
            old(mmr).line_width(),
            opt_view(ref_line),
            MmrLineState { regs: old(mmr).regs(), a0: MINUS1, c: 0, line: old(dst)@ },
            run_fuel(old(mmr).bytes(), old(mmr).regs()),
        ) {
            None => r matches Err(e) && e is InvalidData,
            Some((r2, l2, e)) => r == Ok::<bool, Jbig2Error>(e) && final(mmr).regs() == r2 && final(dst)@ == l2,
        },
        r is Ok ==> mmr_avail(final(mmr).bytes(), final(mmr).regs()) >= -62,
{
    let width = mmr.width;
    let mut a0: u32 = MINUS1;
    let mut c: u8 = 0;
    let ghost d = mmr.bytes();
    let ghost refl = opt_view(ref_line);
    let ghost st0 = MmrLineState { regs: mmr.regs(), a0: MINUS1, c: 0, line: dst@ };
    let ghost f0 = run_fuel(d, mmr.regs());
    let ghost mut f: nat = f0;
    let mut res: Result<bool, Jbig2Error> = Ok(false);
    loop
        invariant_except_break
            f >= mmr_avail(d, mmr.regs()) + 64,
            spec_line(d, width, refl, MmrLineState { regs: mmr.regs(), a0, c, line: dst@ }, f) == spec_line(
                d,
                width,
                refl,
                st0,
                f0,
            ),
            mmr_avail(d, mmr.regs()) >= -62,
            a0 == MINUS1 || a0 <= width,
            c <= 1,
        invariant
            mmr.wf(),
            mmr.bytes() == d,
            mmr.line_width() == width,
            width + 7 <= u32::MAX,
            refl == opt_view(ref_line),
            dst@.len() == old(dst)@.len(),
        ensures
            match spec_line(d, width, refl, st0, f0) {
                None => res matches Err(e) && e is InvalidData,
                Some((r2, l2, e)) => res == Ok::<bool, Jbig2Error>(e) && mmr.regs() == r2 && dst@ == l2,
            },
            res is Ok ==> mmr_avail(d, mmr.regs()) >= -62,
        decreases mmr_avail(d, mmr.regs()) + 64,
    {
        proof {
            reveal_with_fuel(spec_line, 1);
        }
        match mmr_step(mmr, ref_line, dst, a0, c) {
            Ok(LineStep::Next(a1, c1)) => {
                a0 = a1;
                c = c1;
            },
            Ok(LineStep::End(e)) => {
                res = Ok(e);
                break;
            },
            Err(e) => {
                res = Err(e);
                break;
            },
        }
        proof {
            f = (f - 1) as nat;
        }
    }
    res
}

} // verus!
