//! Huffman decoding (ITU T.88 Annex B): table lines, prefix code assignment, the
//! bit reader, the standard tables and user-defined tables.

use vstd::prelude::*;
use crate::error::Jbig2Error;
use crate::bitreader::{stream_bit, stream_value};
use crate::bytes::be_u32;

verus! {

/// One line of a Huffman table: prefix length, range length and the range's low end.
#[derive(Debug, Clone, Copy)]
pub struct HuffmanLine {
    pub preflen: u8,
    pub rangelen: u8,
    pub rangelow: i32,
}

/// A Huffman table as the lines that define it, and whether it codes OOB.
#[derive(Debug, Clone)]
pub struct HuffmanParams {
    pub htoob: bool,
    pub lines: Vec<HuffmanLine>,
}

/// Byte `i` of `d`, 0 past the end.
pub open spec fn byte_or_zero(d: Seq<u8>, i: int) -> u8 {
    if 0 <= i < d.len() {
        d[i]
    } else {
        0
    }
}

/// The big-endian 32-bit word at byte `off`, zeros past the end of `d`.
pub open spec fn word_at(d: Seq<u8>, off: int) -> u32 {
    (byte_or_zero(d, off) as int * 0x1000000 + byte_or_zero(d, off + 1) as int * 0x10000 + byte_or_zero(d, off + 2)
        as int * 0x100 + byte_or_zero(d, off + 3) as int) as u32
}

/// The registers of the Huffman bit reader: the 32 bits at the read position, the next
/// word, the bit offset within the current word, and the byte offset of the current word.
#[derive(Clone, Copy)]
pub struct HuffRegs {
    pub this_word: u32,
    pub next_word: u32,
    pub offset_bits: u32,
    pub offset: usize,
}

/// The registers after moving `n` bits on.
pub open spec fn huff_advance(d: Seq<u8>, s: HuffRegs, n: u32) -> HuffRegs {
    let ob = s.offset_bits + n;
    if ob >= 32 {
        let ob2 = (ob - 32) as u32;
        let off = (s.offset + 4) as usize;
        let nw = word_at(d, off + 4);
        let tw = if ob2 > 0 {
            (s.next_word << ob2) | (nw >> ((32 - ob2) as u32))
        } else {
            s.next_word
        };
        HuffRegs { this_word: tw, next_word: nw, offset_bits: ob2, offset: off }
    } else if n > 0 {
        HuffRegs {
            this_word: (s.this_word << n) | (s.next_word >> ((32 - ob) as u32)),
            offset_bits: ob as u32,
            ..s
        }
    } else {
        s
    }
}

/// Huffman bit reader over a byte slice; reading past the end gives zeros.
pub struct HuffmanState<'a> {
    data: &'a [u8],
    this_word: u32,
    next_word: u32,
    offset_bits: u32,
    offset: usize,
}

/// Read the big-endian word at `offset`, zeros past the end.
fn read_word(data: &[u8], offset: usize) -> (w: u32)
    requires
        offset + 4 <= usize::MAX,
    ensures
        w == word_at(data@, offset as int),
{
    let b0: u32 = if offset < data.len() {
        data[offset] as u32
    } else {
        0
    };
    let b1: u32 = if offset + 1 < data.len() {
        data[offset + 1] as u32
    } else {
        0
    };
    let b2: u32 = if offset + 2 < data.len() {
        data[offset + 2] as u32
    } else {
        0
    };
    let b3: u32 = if offset + 3 < data.len() {
        data[offset + 3] as u32
    } else {
        0
    };
    assert((b0 << 24u32) | (b1 << 16u32) | (b2 << 8u32) | b3 == b0 * 0x1000000 + b1 * 0x10000 + b2 * 0x100 + b3)
        by (bit_vector)
        requires
            b0 < 256,
            b1 < 256,
            b2 < 256,
            b3 < 256,
    ;
    (b0 << 24u32) | (b1 << 16u32) | (b2 << 8u32) | b3
}

impl<'a> HuffmanState<'a> {
    /// The bytes being read.
    pub closed spec fn bytes(&self) -> Seq<u8> {
        self.data@
    }

    /// The reader registers.
    pub closed spec fn regs(&self) -> HuffRegs {
        HuffRegs {
            this_word: self.this_word,
            next_word: self.next_word,
            offset_bits: self.offset_bits,
            offset: self.offset,
        }
    }

    /// The bit offset lies within the current word, and the byte offset leaves room to
    /// read on.
    pub open spec fn wf(&self) -> bool {
        &&& self.regs().offset_bits < 32
        &&& self.regs().offset + 64 <= usize::MAX
    }

    /// A reader at the first bit of `data`.
    pub fn new(data: &'a [u8]) -> (s: Self)
        ensures
            s.wf(),
            s.bytes() == data@,
            s.regs() == (HuffRegs {
                this_word: word_at(data@, 0),
                next_word: word_at(data@, 4),
                offset_bits: 0,
                offset: 0,
            }),
    {
        let this_word = read_word(data, 0);
        let next_word = read_word(data, 4);
        HuffmanState { data, this_word, next_word, offset_bits: 0, offset: 0 }
    }

    /// Move `n` bits on (the shared register update of the readers below).
    fn advance(&mut self, n: u32)
        requires
            old(self).regs().offset_bits < 32,
            n <= 32,
            old(self).regs().offset + 32 <= usize::MAX,
        ensures
            final(self).bytes() == old(self).bytes(),
            final(self).regs() == huff_advance(old(self).bytes(), old(self).regs(), n),
            final(self).regs().offset_bits < 32,
            final(self).regs().offset <= old(self).regs().offset + 4,
    {
        self.offset_bits += n;
        if self.offset_bits >= 32 {
            self.this_word = self.next_word;
            self.offset += 4;
            self.offset_bits -= 32;
            self.next_word = read_word(self.data, self.offset + 4);
            if self.offset_bits > 0 {
                self.this_word = (self.this_word << self.offset_bits) | (self.next_word >> (32 - self.offset_bits));
            }
        } else if n > 0 {
            self.this_word = (self.this_word << n) | (self.next_word >> (32 - self.offset_bits));
        }
    }

    /// Read `n` raw bits (1 to 32) as a number.
    pub fn get_bits(&mut self, n: u8) -> (v: u32)
        requires
            old(self).wf(),
            1 <= n <= 32,
        ensures
            final(self).bytes() == old(self).bytes(),
            v == old(self).regs().this_word >> ((32 - n) as u32),
            final(self).regs() == huff_advance(old(self).bytes(), old(self).regs(), n as u32),
            final(self).regs().offset_bits < 32,
            final(self).regs().offset <= old(self).regs().offset + 4,
    {
        let result = self.this_word >> (32 - n as u32);
        self.advance(n as u32);
        result
    }

    /// Skip to the next byte boundary.
    pub fn align(&mut self)
        requires
            old(self).wf(),
        ensures
            final(self).bytes() == old(self).bytes(),
            final(self).regs() == if old(self).regs().offset_bits & 7 == 0 {
                old(self).regs()
            } else {
                huff_advance(old(self).bytes(), old(self).regs(), (8 - (old(self).regs().offset_bits & 7)) as u32)
            },
            final(self).regs().offset_bits < 32,
            final(self).regs().offset <= old(self).regs().offset + 4,
    {
        let ob = self.offset_bits;
        let bits = ob & 7;
        assert(ob & 7 < 8) by (bit_vector);
        if bits != 0 {
            let skip = 8 - bits;
            self.advance(skip);
        }
    }

    /// The byte offset of the read position.
    pub fn offset(&self) -> (n: usize)
        requires
            self.wf(),
        ensures
            n == self.regs().offset + self.regs().offset_bits / 8,
    {
        let ob = self.offset_bits as usize;
        assert(ob >> 3usize == ob / 8) by (bit_vector);
        self.offset + (ob >> 3usize)
    }
}

/// Entry flag: the code is OOB.
pub const FLAGS_ISOOB: u8 = 1;

/// Entry flag: the line is the lower range line (values counted downwards).
pub const FLAGS_ISLOW: u8 = 2;

/// Largest number of index bits of a lookup table.
pub const LOG_TABLE_SIZE_MAX: u8 = 16;

/// One entry of a lookup table: for the codes whose first bits index it, the value (or
/// range low end), the bits to consume, the range bits that follow, and the flags
/// (0xFF: no code).
#[derive(Debug, Clone, Copy)]
pub struct HuffmanEntry {
    pub rangelow: i32,
    pub preflen: u8,
    pub rangelen: u8,
    pub flags: u8,
}

/// A lookup table indexed by the next `log_table_size` bits of the stream.
#[derive(Debug, Clone)]
pub struct HuffmanTable {
    pub log_table_size: u8,
    entries: Vec<HuffmanEntry>,
}

impl HuffmanTable {
    /// The table's entries.
    pub closed spec fn entries_view(&self) -> Seq<HuffmanEntry> {
        self.entries@
    }

    /// The number of index bits.
    pub closed spec fn log_size(&self) -> u8 {
        self.log_table_size
    }

    /// At most 16 index bits, and every entry with a code consumes and reads at most 32
    /// bits each.
    pub open spec fn wf(&self) -> bool {
        &&& self.log_size() <= 16
        &&& forall|j: int|
            0 <= j < self.entries_view().len() && (#[trigger] self.entries_view()[j]).flags != 0xFF ==> self.entries_view()[j].preflen
                <= 32 && self.entries_view()[j].rangelen <= 32
    }
}

/// Index bits a line needs: prefix and range when they fit in 16 bits, else the prefix.
pub open spec fn line_lts(l: HuffmanLine) -> int {
    if l.preflen + l.rangelen > LOG_TABLE_SIZE_MAX {
        l.preflen as int
    } else {
        l.preflen + l.rangelen
    }
}

/// The number of index bits of the table for the first `k` lines: the largest need of
/// at most 16 bits (B.3, with direct lookup of short codes).
pub open spec fn table_log_size(lines: Seq<HuffmanLine>, k: int) -> u8
    decreases k,
{
    if k <= 0 {
        0
    } else {
        let prev = table_log_size(lines, k - 1);
        let lts = line_lts(lines[k - 1]);
        if lts <= LOG_TABLE_SIZE_MAX && lts > prev {
            lts as u8
        } else {
            prev
        }
    }
}

/// The longest prefix among the first `k` lines.
pub open spec fn max_preflen(lines: Seq<HuffmanLine>, k: int) -> i32
    decreases k,
{
    if k <= 0 {
        0
    } else {
        let prev = max_preflen(lines, k - 1);
        if lines[k - 1].preflen as i32 > prev {
            lines[k - 1].preflen as i32
        } else {
            prev
        }
    }
}

/// The number of the first `k` lines with prefix length `l` (B.3 step 1, LENCOUNT).
pub open spec fn count_len(lines: Seq<HuffmanLine>, k: int, l: int) -> int
    decreases k,
{
    if k <= 0 {
        0
    } else {
        count_len(lines, k - 1, l) + if lines[k - 1].preflen == l {
            1int
        } else {
            0int
        }
    }
}

/// FIRSTCODE for prefix length `l` (B.3 step 3), in 32-bit wrapping arithmetic;
/// prefix length 0 counts no lines.
pub open spec fn first_code(lines: Seq<HuffmanLine>, l: int) -> i32
    decreases l,
{
    if l <= 0 {
        0
    } else {
        let c: i32 = if l - 1 == 0 {
            0
        } else {
            count_len(lines, lines.len() as int, l - 1) as i32
        };
        first_code(lines, l - 1).wrapping_add(c).wrapping_shl(1)
    }
}

/// The flags of line `t` of `n` lines.
pub open spec fn line_flags(htoob: bool, n: int, t: int) -> u8 {
    let oob: u8 = if htoob && t == n - 1 {
        FLAGS_ISOOB
    } else {
        0
    };
    let low: u8 = if t == n - (if htoob {
        3int
    } else {
        2int
    }) {
        FLAGS_ISLOW
    } else {
        0
    };
    oob | low
}

/// The entry at index `j` for line `l` with flags `f`, written with index shift `shift`:
/// a line whose prefix and range fit in the index gets the value itself, else its range
/// bits are read after the prefix.
pub open spec fn entry_at(l: HuffmanLine, f: u8, shift: int, j: u32) -> HuffmanEntry {
    if l.preflen + l.rangelen > LOG_TABLE_SIZE_MAX {
        HuffmanEntry { rangelow: l.rangelow, preflen: l.preflen, rangelen: l.rangelen, flags: f }
    } else {
        let htoffset = ((j >> ((shift - l.rangelen) as u32)) & (((1u32 << l.rangelen) - 1) as u32)) as i32;
        let rl = if f & FLAGS_ISLOW != 0 {
            l.rangelow.wrapping_sub(htoffset)
        } else {
            l.rangelow.wrapping_add(htoffset)
        };
        HuffmanEntry { rangelow: rl, preflen: (l.preflen + l.rangelen) as u8, rangelen: 0, flags: f }
    }
}

/// `entries` with indices `start .. end` filled for line `l`.
pub open spec fn write_range(entries: Seq<HuffmanEntry>, l: HuffmanLine, f: u8, shift: int, start: u32, end: u32) -> Seq<
    HuffmanEntry,
> {
    Seq::new(entries.len(), |j: int| if start <= j < end { entry_at(l, f, shift, j as u32) } else { entries[j] })
}

/// Assign codes of prefix length `curlen` to lines `t` on, from code `curcode` (B.3 step
/// 3): each such line fills the entries its code indexes; `None` when a code runs past
/// the table.
pub open spec fn fill_len(
    lines: Seq<HuffmanLine>,
    htoob: bool,
    lts: u8,
    curlen: i32,
    t: int,
    curcode: i32,
    entries: Seq<HuffmanEntry>,
) -> Option<Seq<HuffmanEntry>>
    decreases lines.len() - t,
{
    if t >= lines.len() {
        Some(entries)
    } else if lines[t].preflen as i32 == curlen {
        let shift = lts as i32 - curlen;
        let start = curcode.wrapping_shl(shift as u32) as u32;
        let end = curcode.wrapping_add(1).wrapping_shl(shift as u32) as u32;
        if end > (1u32 << lts) {
            None
        } else {
            fill_len(
                lines,
                htoob,
                lts,
                curlen,
                t + 1,
                curcode.wrapping_add(1),
                write_range(entries, lines[t], line_flags(htoob, lines.len() as int, t), shift as int, start, end),
            )
        }
    } else {
        fill_len(lines, htoob, lts, curlen, t + 1, curcode, entries)
    }
}

/// Assign codes of prefix lengths `curlen` to `lenmax`.
pub open spec fn fill_all(
    lines: Seq<HuffmanLine>,
    htoob: bool,
    lts: u8,
    curlen: int,
    lenmax: int,
    entries: Seq<HuffmanEntry>,
) -> Option<Seq<HuffmanEntry>>
    decreases lenmax - curlen + 1,
{
    if curlen > lenmax {
        Some(entries)
    } else {
        match fill_len(lines, htoob, lts, curlen as i32, 0, first_code(lines, curlen), entries) {
            None => None,
            Some(e) => fill_all(lines, htoob, lts, curlen + 1, lenmax, e),
        }
    }
}

/// An entry with no code.
pub open spec fn empty_entry() -> HuffmanEntry {
    HuffmanEntry { rangelow: 0, preflen: 0xFF, rangelen: 0xFF, flags: 0xFF }
}

/// A table of `n` entries with no code.
pub open spec fn empty_table(n: nat) -> Seq<HuffmanEntry> {
    Seq::new(n, |j: int| empty_entry())
}

/// The lookup table of `lines`: `None` when there are no lines or a code runs past the
/// table.
pub open spec fn spec_build_table(lines: Seq<HuffmanLine>, htoob: bool) -> Option<(u8, Seq<HuffmanEntry>)> {
    let lts = table_log_size(lines, lines.len() as int);
    if lines.len() == 0 {
        None
    } else {
        match fill_all(
            lines,
            htoob,
            lts,
            1,
            max_preflen(lines, lines.len() as int) as int,
            empty_table(vstd::arithmetic::power2::pow2(lts as nat)),
        ) {
            None => None,
            Some(e) => Some((lts, e)),
        }
    }
}

/// Lines whose prefixes and ranges take at most 32 bits each.
pub open spec fn lines_ok(lines: Seq<HuffmanLine>) -> bool {
    forall|t: int| 0 <= t < lines.len() ==> (#[trigger] lines[t]).preflen <= 32 && lines[t].rangelen <= 32
}

proof fn lemma_log_size_bound(lines: Seq<HuffmanLine>, k: int, t: int)
    requires
        0 <= t < k <= lines.len(),
    ensures
        line_lts(lines[t]) <= LOG_TABLE_SIZE_MAX ==> line_lts(lines[t]) <= table_log_size(lines, k),
        table_log_size(lines, k) <= LOG_TABLE_SIZE_MAX,
    decreases k,
{
    if t < k - 1 {
        lemma_log_size_bound(lines, k - 1, t);
    }
    lemma_log_size_le(lines, k);
}

proof fn lemma_log_size_le(lines: Seq<HuffmanLine>, k: int)
    ensures
        table_log_size(lines, k) <= LOG_TABLE_SIZE_MAX,
    decreases k,
{
    if k > 0 {
        lemma_log_size_le(lines, k - 1);
    }
}

proof fn lemma_count_le(lines: Seq<HuffmanLine>, k: int, l: int)
    requires
        0 <= k,
    ensures
        0 <= count_len(lines, k, l) <= k,
    decreases k,
{
    if k > 0 {
        lemma_count_le(lines, k - 1, l);
    }
}

proof fn lemma_max_preflen(lines: Seq<HuffmanLine>, k: int)
    requires
        0 <= k <= lines.len(),
    ensures
        0 <= max_preflen(lines, k) <= 255,
        forall|t: int| 0 <= t < k ==> (#[trigger] lines[t]).preflen <= max_preflen(lines, k),
    decreases k,
{
    if k > 0 {
        lemma_max_preflen(lines, k - 1);
    }
}

/// Build the lookup table of a Huffman table (B.3).
pub fn build_table(params: &HuffmanParams) -> (r: Result<HuffmanTable, Jbig2Error>)
    requires
        params.lines@.len() <= 0x7FFF_FFFF,
    ensures
        match spec_build_table(params.lines@, params.htoob) {
            None => r matches Err(e) && e is InvalidData,
            Some((lts, e)) => r matches Ok(t) && t.log_size() == lts && t.entries_view() == e,
        },
        lines_ok(params.lines@) ==> (r matches Ok(t) ==> t.wf()),
{
    let lines = &params.lines;
    let n_lines = lines.len();
    if n_lines == 0 {
        return Err(Jbig2Error::InvalidData("empty huffman table".to_owned()));
    }
    let ghost ls = lines@;
    let mut lencount = [0i32; 256];
    let mut lenmax: i32 = 0;
    let mut log_table_size: u8 = 0;
    let mut i: usize = 0;
    while i < n_lines
        invariant
            ls == lines@,
            ls == params.lines@,
            n_lines == ls.len(),
            n_lines <= 0x7FFF_FFFF,
            i <= n_lines,
            lenmax == max_preflen(ls, i as int),
            log_table_size == table_log_size(ls, i as int),
            forall|l: int| 0 <= l < 256 ==> #[trigger] lencount[l] == count_len(ls, i as int, l),
        decreases n_lines - i,
    {
        let line = lines[i];
        let pl = line.preflen as i32;
        if pl > lenmax {
            lenmax = pl;
        }
        proof {
            lemma_count_le(ls, i as int, pl as int);
        }
        lencount[pl as usize] = lencount[pl as usize] + 1;
        let lts = if (line.preflen as u16 + line.rangelen as u16) > LOG_TABLE_SIZE_MAX as u16 {
            line.preflen
        } else {
            line.preflen + line.rangelen
        };
        if lts <= LOG_TABLE_SIZE_MAX && lts > log_table_size {
            log_table_size = lts;
        }
        i += 1;
    }
    proof {
        lemma_log_size_le(ls, n_lines as int);
        lemma_max_preflen(ls, n_lines as int);
        vstd::arithmetic::power2::lemma2_to64();
        vstd::bits::lemma_u32_shl_is_mul(1, log_table_size as u32);
    }
    let lts = log_table_size;
    let max_j = 1u32 << log_table_size;
    let mut entries = vec![HuffmanEntry { rangelow: 0, preflen: 0xFF, rangelen: 0xFF, flags: 0xFF }; max_j as usize];
    let ghost e0 = entries@;
    assert(e0 =~= empty_table(vstd::arithmetic::power2::pow2(lts as nat)));
    lencount[0] = 0;
    let mut firstcode: i32 = 0;
    let mut curlen: i32 = 1;
    let ghost fin = fill_all(ls, params.htoob, lts, 1, lenmax as int, e0);
    while curlen <= lenmax
        invariant
            ls == lines@,
            ls == params.lines@,
            n_lines == ls.len(),
            n_lines <= 0x7FFF_FFFF,
            1 <= curlen <= lenmax + 1,
            0 <= lenmax <= 255,
            lts == table_log_size(ls, n_lines as int),
            lts <= 16,
            max_j == vstd::arithmetic::power2::pow2(lts as nat),
            max_j == (1u32 << lts),
            entries@.len() == max_j,
            lencount[0] == 0,
            forall|l: int| 1 <= l < 256 ==> #[trigger] lencount[l] == count_len(ls, n_lines as int, l),
            firstcode == first_code(ls, curlen - 1),
            fill_all(ls, params.htoob, lts, curlen as int, lenmax as int, entries@) == fin,
            lines_ok(ls) ==> forall|j: int|
                0 <= j < entries@.len() && (#[trigger] entries@[j]).flags != 0xFF ==> entries@[j].preflen <= 32
                    && entries@[j].rangelen <= 32,
            forall|t: int| 0 <= t < n_lines ==> (#[trigger] ls[t]).preflen <= lenmax,
            lenmax == max_preflen(ls, n_lines as int),
            e0 == empty_table(vstd::arithmetic::power2::pow2(lts as nat)),
            fin == fill_all(ls, params.htoob, lts, 1, lenmax as int, e0),
        decreases lenmax - curlen + 1,
    {
        let shift = lts as i32 - curlen;
        proof {
            lemma_count_le(ls, n_lines as int, (curlen - 1) as int);
        }
        firstcode = firstcode.wrapping_add(lencount[(curlen - 1) as usize]).wrapping_shl(1);
        let mut curcode = firstcode;
        let ghost ebefore = entries@;
        let mut t: usize = 0;
        while t < n_lines
            invariant
                ls == lines@,
                ls == params.lines@,
            ls == params.lines@,
                n_lines == ls.len(),
                t <= n_lines,
                1 <= curlen <= lenmax,
                lts == table_log_size(ls, n_lines as int),
                lts <= 16,
                shift == lts as i32 - curlen,
                max_j == (1u32 << lts),
                entries@.len() == max_j,
                fill_len(ls, params.htoob, lts, curlen, t as int, curcode, entries@) == fill_len(
                    ls,
                    params.htoob,
                    lts,
                    curlen,
                    0,
                    first_code(ls, curlen as int),
                    ebefore,
                ),
                lines_ok(ls) ==> forall|j: int|
                    0 <= j < entries@.len() && (#[trigger] entries@[j]).flags != 0xFF ==> entries@[j].preflen <= 32
                        && entries@[j].rangelen <= 32,
                0 <= lenmax <= 255,
                lenmax == max_preflen(ls, n_lines as int),
                e0 == empty_table(vstd::arithmetic::power2::pow2(lts as nat)),
                fin == fill_all(ls, params.htoob, lts, 1, lenmax as int, e0),
                fill_all(ls, params.htoob, lts, curlen as int, lenmax as int, ebefore) == fin,
            decreases n_lines - t,
        {
            let line = lines[t];
            if line.preflen as i32 == curlen {
                let rangelen = line.rangelen;
                let start_j = curcode.wrapping_shl(shift as u32) as u32;
                let end_j = curcode.wrapping_add(1).wrapping_shl(shift as u32) as u32;
                if end_j > max_j {
                    return Err(Jbig2Error::InvalidData("huffman table overflow".to_owned()));
                }
                let mut eflags: u8 = 0;
                if params.htoob && t == n_lines - 1 {
                    eflags = eflags | FLAGS_ISOOB;
                }
                let low_idx = n_lines.wrapping_sub(if params.htoob {
                    3
                } else {
                    2
                });
                if t == low_idx {
                    eflags = eflags | FLAGS_ISLOW;
                }
                proof {
                    assert(eflags == line_flags(params.htoob, n_lines as int, t as int)) by {
                        assert(0u8 | 1u8 == 1u8 && 0u8 | 2u8 == 2u8 && 1u8 | 2u8 == 3u8 && 0u8 | 0u8 == 0u8 && 1u8 | 0u8
                            == 1u8) by (bit_vector);
                        assert(t == low_idx <==> t as int == n_lines as int - (if params.htoob { 3int } else { 2int }));
                    }
                    lemma_log_size_bound(ls, n_lines as int, t as int);
                }
                let ghost ew = entries@;
                let mut cur_j = start_j;
                if (line.preflen as u16 + rangelen as u16) > LOG_TABLE_SIZE_MAX as u16 {
                    while cur_j < end_j
                        invariant
                            start_j <= cur_j,
                            cur_j <= end_j || cur_j == start_j,
                            end_j <= max_j,
                            entries@.len() == ew.len(),
                            ew.len() == max_j,
                            rangelen == line.rangelen,
                            line.preflen + line.rangelen > LOG_TABLE_SIZE_MAX,
                            forall|j: int| 0 <= j < ew.len() ==> #[trigger] entries@[j] == if start_j <= j < cur_j {
                                entry_at(line, eflags, shift as int, j as u32)
                            } else {
                                ew[j]
                            },
                        decreases end_j - cur_j,
                    {
                        entries.set(
                            cur_j as usize,
                            HuffmanEntry { rangelow: line.rangelow, preflen: line.preflen, rangelen, flags: eflags },
                        );
                        cur_j += 1;
                    }
                } else {
                    while cur_j < end_j
                        invariant
                            start_j <= cur_j,
                            cur_j <= end_j || cur_j == start_j,
                            end_j <= max_j,
                            entries@.len() == ew.len(),
                            ew.len() == max_j,
                            rangelen == line.rangelen,
                            line.preflen + line.rangelen <= LOG_TABLE_SIZE_MAX,
                            0 <= shift - rangelen < 32,
                            rangelen <= 16,
                            forall|j: int| 0 <= j < ew.len() ==> #[trigger] entries@[j] == if start_j <= j < cur_j {
                                entry_at(line, eflags, shift as int, j as u32)
                            } else {
                                ew[j]
                            },
                        decreases end_j - cur_j,
                    {
                        assert(rangelen <= 16 ==> (1u32 << rangelen) >= 1) by (bit_vector);
                        let htoffset = ((cur_j >> ((shift - rangelen as i32) as u32)) & ((1u32 << rangelen) - 1)) as i32;
                        let rl = if eflags & FLAGS_ISLOW != 0 {
                            line.rangelow.wrapping_sub(htoffset)
                        } else {
                            line.rangelow.wrapping_add(htoffset)
                        };
                        entries.set(
                            cur_j as usize,
                            HuffmanEntry { rangelow: rl, preflen: line.preflen + rangelen, rangelen: 0, flags: eflags },
                        );
                        cur_j += 1;
                    }
                }
                proof {
                    assert(entries@ =~= write_range(ew, line, eflags, shift as int, start_j, end_j));
                }
                curcode = curcode.wrapping_add(1);
            }
            t += 1;
        }
        curlen += 1;
    }
    Ok(HuffmanTable { log_table_size, entries })
}

/// Decoding one value with table (`lts`, `entries`) from registers `s` (B.4): the entry
/// indexed by the next `lts` bits gives the prefix to consume and the range bits to
/// read; the registers after it, the value and whether it is OOB; `None` when the
/// index has no code.
pub open spec fn spec_huff_get(d: Seq<u8>, s: HuffRegs, lts: u8, entries: Seq<HuffmanEntry>) -> Option<(HuffRegs, i32, bool)> {
    let idx: int = if lts > 0 {
        (s.this_word >> ((32 - lts) as u32)) as int
    } else {
        0
    };
    if idx >= entries.len() {
        None
    } else if entries[idx].flags == 0xFF {
        None
    } else {
        let e = entries[idx];
        let s1 = huff_advance(d, s, e.preflen as u32);
        if e.rangelen > 0 {
            let htoffset = (s1.this_word >> ((32 - e.rangelen) as u32)) as i32;
            let v = if e.flags & FLAGS_ISLOW != 0 {
                e.rangelow.wrapping_sub(htoffset)
            } else {
                e.rangelow.wrapping_add(htoffset)
            };
            Some((huff_advance(d, s1, e.rangelen as u32), v, e.flags & FLAGS_ISOOB != 0))
        } else {
            Some((s1, e.rangelow, e.flags & FLAGS_ISOOB != 0))
        }
    }
}

impl<'a> HuffmanState<'a> {
    /// Decode a value with a lookup table; returns the value and whether it is OOB.
    pub fn get(&mut self, table: &HuffmanTable) -> (r: Result<(i32, bool), Jbig2Error>)
        requires
            old(self).wf(),
            table.wf(),
        ensures
            final(self).bytes() == old(self).bytes(),
            match spec_huff_get(old(self).bytes(), old(self).regs(), table.log_size(), table.entries_view()) {
                None => (r matches Err(e) && e is InvalidData) && final(self).regs() == old(self).regs(),
                Some((s2, v, oob)) => r == Ok::<(i32, bool), Jbig2Error>((v, oob)) && final(self).regs() == s2,
            },
            final(self).regs().offset_bits < 32,
            final(self).regs().offset <= old(self).regs().offset + 8,
    {
        let lts = table.log_table_size;
        let idx = if lts > 0 {
            (self.this_word >> (32 - lts as u32)) as usize
        } else {
            0
        };
        if idx >= table.entries.len() {
            return Err(Jbig2Error::InvalidData("huffman index out of range".to_owned()));
        }
        let entry = table.entries[idx];
        if entry.flags == 0xFF {
            return Err(Jbig2Error::InvalidData("unpopulated huffman table entry".to_owned()));
        }
        let preflen = entry.preflen;
        let rangelen = entry.rangelen;
        let flags = entry.flags;
        self.advance(preflen as u32);
        let mut result = entry.rangelow;
        if rangelen > 0 {
            let htoffset = (self.this_word >> (32 - rangelen as u32)) as i32;
            if flags & FLAGS_ISLOW != 0 {
                result = result.wrapping_sub(htoffset);
            } else {
                result = result.wrapping_add(htoffset);
            }
            self.advance(rangelen as u32);
        }
        let is_oob = flags & FLAGS_ISOOB != 0;
        Ok((result, is_oob))
    }
}

/// The lines of standard table `index` (0 for Table B.1 to 14 for Table B.15).
pub open spec fn std_lines(index: int) -> Seq<HuffmanLine> {
    if index == 0 {
        seq![
            HuffmanLine { preflen: 1, rangelen: 4, rangelow: 0 },
            HuffmanLine { preflen: 2, rangelen: 8, rangelow: 16 },
            HuffmanLine { preflen: 3, rangelen: 16, rangelow: 272 },
            HuffmanLine { preflen: 0, rangelen: 32, rangelow: -1i32 },
            HuffmanLine { preflen: 3, rangelen: 32, rangelow: 65808 },
        ]    } else if index == 1 {
        seq![
            HuffmanLine { preflen: 1, rangelen: 0, rangelow: 0 },
            HuffmanLine { preflen: 2, rangelen: 0, rangelow: 1 },
            HuffmanLine { preflen: 3, rangelen: 0, rangelow: 2 },
            HuffmanLine { preflen: 4, rangelen: 3, rangelow: 3 },
            HuffmanLine { preflen: 5, rangelen: 6, rangelow: 11 },
            HuffmanLine { preflen: 0, rangelen: 32, rangelow: -1i32 },
            HuffmanLine { preflen: 6, rangelen: 32, rangelow: 75 },
            HuffmanLine { preflen: 6, rangelen: 0, rangelow: 0 },
        ]    } else if index == 2 {
        seq![
            HuffmanLine { preflen: 8, rangelen: 8, rangelow: -256i32 },
            HuffmanLine { preflen: 1, rangelen: 0, rangelow: 0 },
            HuffmanLine { preflen: 2, rangelen: 0, rangelow: 1 },
            HuffmanLine { preflen: 3, rangelen: 0, rangelow: 2 },
            HuffmanLine { preflen: 4, rangelen: 3, rangelow: 3 },
            HuffmanLine { preflen: 5, rangelen: 6, rangelow: 11 },
            HuffmanLine { preflen: 8, rangelen: 32, rangelow: -257i32 },
            HuffmanLine { preflen: 7, rangelen: 32, rangelow: 75 },
            HuffmanLine { preflen: 6, rangelen: 0, rangelow: 0 },
        ]    } else if index == 3 {
        seq![
            HuffmanLine { preflen: 1, rangelen: 0, rangelow: 1 },
            HuffmanLine { preflen: 2, rangelen: 0, rangelow: 2 },
            HuffmanLine { preflen: 3, rangelen: 0, rangelow: 3 },
            HuffmanLine { preflen: 4, rangelen: 3, rangelow: 4 },
            HuffmanLine { preflen: 5, rangelen: 6, rangelow: 12 },
            HuffmanLine { preflen: 0, rangelen: 32, rangelow: -1i32 },
            HuffmanLine { preflen: 5, rangelen: 32, rangelow: 76 },
        ]    } else if index == 4 {
        seq![
            HuffmanLine { preflen: 7, rangelen: 8, rangelow: -255i32 },
            HuffmanLine { preflen: 1, rangelen: 0, rangelow: 1 },
            HuffmanLine { preflen: 2, rangelen: 0, rangelow: 2 },
            HuffmanLine { preflen: 3, rangelen: 0, rangelow: 3 },
            HuffmanLine { preflen: 4, rangelen: 3, rangelow: 4 },
            HuffmanLine { preflen: 5, rangelen: 6, rangelow: 12 },
            HuffmanLine { preflen: 7, rangelen: 32, rangelow: -256i32 },
            HuffmanLine { preflen: 6, rangelen: 32, rangelow: 76 },
        ]    } else if index == 5 {
        seq![
            HuffmanLine { preflen: 5, rangelen: 10, rangelow: -2048i32 },
            HuffmanLine { preflen: 4, rangelen: 9, rangelow: -1024i32 },
            HuffmanLine { preflen: 4, rangelen: 8, rangelow: -512i32 },
            HuffmanLine { preflen: 4, rangelen: 7, rangelow: -256i32 },
            HuffmanLine { preflen: 5, rangelen: 6, rangelow: -128i32 },
            HuffmanLine { preflen: 5, rangelen: 5, rangelow: -64i32 },
            HuffmanLine { preflen: 4, rangelen: 5, rangelow: -32i32 },
            HuffmanLine { preflen: 2, rangelen: 7, rangelow: 0 },
            HuffmanLine { preflen: 3, rangelen: 7, rangelow: 128 },
            HuffmanLine { preflen: 3, rangelen: 8, rangelow: 256 },
            HuffmanLine { preflen: 4, rangelen: 9, rangelow: 512 },
            HuffmanLine { preflen: 4, rangelen: 10, rangelow: 1024 },
            HuffmanLine { preflen: 6, rangelen: 32, rangelow: -2049i32 },
            HuffmanLine { preflen: 6, rangelen: 32, rangelow: 2048 },
        ]    } else if index == 6 {
        seq![
            HuffmanLine { preflen: 4, rangelen: 9, rangelow: -1024i32 },
            HuffmanLine { preflen: 3, rangelen: 8, rangelow: -512i32 },
            HuffmanLine { preflen: 4, rangelen: 7, rangelow: -256i32 },
            HuffmanLine { preflen: 5, rangelen: 6, rangelow: -128i32 },
            HuffmanLine { preflen: 5, rangelen: 5, rangelow: -64i32 },
            HuffmanLine { preflen: 4, rangelen: 5, rangelow: -32i32 },
            HuffmanLine { preflen: 4, rangelen: 5, rangelow: 0 },
            HuffmanLine { preflen: 5, rangelen: 5, rangelow: 32 },
            HuffmanLine { preflen: 5, rangelen: 6, rangelow: 64 },
            HuffmanLine { preflen: 4, rangelen: 7, rangelow: 128 },
            HuffmanLine { preflen: 3, rangelen: 8, rangelow: 256 },
            HuffmanLine { preflen: 3, rangelen: 9, rangelow: 512 },
            HuffmanLine { preflen: 3, rangelen: 10, rangelow: 1024 },
            HuffmanLine { preflen: 5, rangelen: 32, rangelow: -1025i32 },
            HuffmanLine { preflen: 5, rangelen: 32, rangelow: 2048 },
        ]    } else if index == 7 {
        seq![
            HuffmanLine { preflen: 8, rangelen: 3, rangelow: -15i32 },
            HuffmanLine { preflen: 9, rangelen: 1, rangelow: -7i32 },
            HuffmanLine { preflen: 8, rangelen: 1, rangelow: -5i32 },
            HuffmanLine { preflen: 9, rangelen: 0, rangelow: -3i32 },
            HuffmanLine { preflen: 7, rangelen: 0, rangelow: -2i32 },
            HuffmanLine { preflen: 4, rangelen: 0, rangelow: -1i32 },
            HuffmanLine { preflen: 2, rangelen: 1, rangelow: 0 },
            HuffmanLine { preflen: 5, rangelen: 0, rangelow: 2 },
            HuffmanLine { preflen: 6, rangelen: 0, rangelow: 3 },
            HuffmanLine { preflen: 3, rangelen: 4, rangelow: 4 },
            HuffmanLine { preflen: 6, rangelen: 1, rangelow: 20 },
            HuffmanLine { preflen: 4, rangelen: 4, rangelow: 22 },
            HuffmanLine { preflen: 4, rangelen: 5, rangelow: 38 },
            HuffmanLine { preflen: 5, rangelen: 6, rangelow: 70 },
            HuffmanLine { preflen: 5, rangelen: 7, rangelow: 134 },
            HuffmanLine { preflen: 6, rangelen: 7, rangelow: 262 },
            HuffmanLine { preflen: 7, rangelen: 8, rangelow: 390 },
            HuffmanLine { preflen: 6, rangelen: 10, rangelow: 646 },
            HuffmanLine { preflen: 9, rangelen: 32, rangelow: -16i32 },
            HuffmanLine { preflen: 9, rangelen: 32, rangelow: 1670 },
            HuffmanLine { preflen: 2, rangelen: 0, rangelow: 0 },
        ]    } else if index == 8 {
        seq![
            HuffmanLine { preflen: 8, rangelen: 4, rangelow: -31i32 },
            HuffmanLine { preflen: 9, rangelen: 2, rangelow: -15i32 },
            HuffmanLine { preflen: 8, rangelen: 2, rangelow: -11i32 },
            HuffmanLine { preflen: 9, rangelen: 1, rangelow: -7i32 },
            HuffmanLine { preflen: 7, rangelen: 1, rangelow: -5i32 },
            HuffmanLine { preflen: 4, rangelen: 1, rangelow: -3i32 },
            HuffmanLine { preflen: 3, rangelen: 1, rangelow: -1i32 },
            HuffmanLine { preflen: 3, rangelen: 1, rangelow: 1 },
            HuffmanLine { preflen: 5, rangelen: 1, rangelow: 3 },
            HuffmanLine { preflen: 6, rangelen: 1, rangelow: 5 },
            HuffmanLine { preflen: 3, rangelen: 5, rangelow: 7 },
            HuffmanLine { preflen: 6, rangelen: 2, rangelow: 39 },
            HuffmanLine { preflen: 4, rangelen: 5, rangelow: 43 },
            HuffmanLine { preflen: 4, rangelen: 6, rangelow: 75 },
            HuffmanLine { preflen: 5, rangelen: 7, rangelow: 139 },
            HuffmanLine { preflen: 5, rangelen: 8, rangelow: 267 },
            HuffmanLine { preflen: 6, rangelen: 8, rangelow: 523 },
            HuffmanLine { preflen: 7, rangelen: 9, rangelow: 779 },
            HuffmanLine { preflen: 6, rangelen: 11, rangelow: 1291 },
            HuffmanLine { preflen: 9, rangelen: 32, rangelow: -32i32 },
            HuffmanLine { preflen: 9, rangelen: 32, rangelow: 3339 },
            HuffmanLine { preflen: 2, rangelen: 0, rangelow: 0 },
        ]    } else if index == 9 {
        seq![
            HuffmanLine { preflen: 7, rangelen: 4, rangelow: -21i32 },
            HuffmanLine { preflen: 8, rangelen: 0, rangelow: -5i32 },
            HuffmanLine { preflen: 7, rangelen: 0, rangelow: -4i32 },
            HuffmanLine { preflen: 5, rangelen: 0, rangelow: -3i32 },
            HuffmanLine { preflen: 2, rangelen: 2, rangelow: -2i32 },
            HuffmanLine { preflen: 5, rangelen: 0, rangelow: 2 },
            HuffmanLine { preflen: 6, rangelen: 0, rangelow: 3 },
            HuffmanLine { preflen: 7, rangelen: 0, rangelow: 4 },
            HuffmanLine { preflen: 8, rangelen: 0, rangelow: 5 },
            HuffmanLine { preflen: 2, rangelen: 6, rangelow: 6 },
            HuffmanLine { preflen: 5, rangelen: 5, rangelow: 70 },
            HuffmanLine { preflen: 6, rangelen: 5, rangelow: 102 },
            HuffmanLine { preflen: 6, rangelen: 6, rangelow: 134 },
            HuffmanLine { preflen: 6, rangelen: 7, rangelow: 198 },
            HuffmanLine { preflen: 6, rangelen: 8, rangelow: 326 },
            HuffmanLine { preflen: 6, rangelen: 9, rangelow: 582 },
            HuffmanLine { preflen: 6, rangelen: 10, rangelow: 1094 },
            HuffmanLine { preflen: 7, rangelen: 11, rangelow: 2118 },
            HuffmanLine { preflen: 8, rangelen: 32, rangelow: -22i32 },
            HuffmanLine { preflen: 8, rangelen: 32, rangelow: 4166 },
            HuffmanLine { preflen: 2, rangelen: 0, rangelow: 0 },
        ]    } else if index == 10 {
        seq![
            HuffmanLine { preflen: 1, rangelen: 0, rangelow: 1 },
            HuffmanLine { preflen: 2, rangelen: 1, rangelow: 2 },
            HuffmanLine { preflen: 4, rangelen: 0, rangelow: 4 },
            HuffmanLine { preflen: 4, rangelen: 1, rangelow: 5 },
            HuffmanLine { preflen: 5, rangelen: 1, rangelow: 7 },
            HuffmanLine { preflen: 5, rangelen: 2, rangelow: 9 },
            HuffmanLine { preflen: 6, rangelen: 2, rangelow: 13 },
            HuffmanLine { preflen: 7, rangelen: 2, rangelow: 17 },
            HuffmanLine { preflen: 7, rangelen: 3, rangelow: 21 },
            HuffmanLine { preflen: 7, rangelen: 4, rangelow: 29 },
            HuffmanLine { preflen: 7, rangelen: 5, rangelow: 45 },
            HuffmanLine { preflen: 7, rangelen: 6, rangelow: 77 },
            HuffmanLine { preflen: 0, rangelen: 32, rangelow: -1i32 },
            HuffmanLine { preflen: 7, rangelen: 32, rangelow: 141 },
        ]    } else if index == 11 {
        seq![
            HuffmanLine { preflen: 1, rangelen: 0, rangelow: 1 },
            HuffmanLine { preflen: 2, rangelen: 0, rangelow: 2 },
            HuffmanLine { preflen: 3, rangelen: 1, rangelow: 3 },
            HuffmanLine { preflen: 5, rangelen: 0, rangelow: 5 },
            HuffmanLine { preflen: 5, rangelen: 1, rangelow: 6 },
            HuffmanLine { preflen: 6, rangelen: 1, rangelow: 8 },
            HuffmanLine { preflen: 7, rangelen: 0, rangelow: 10 },
            HuffmanLine { preflen: 7, rangelen: 1, rangelow: 11 },
            HuffmanLine { preflen: 7, rangelen: 2, rangelow: 13 },
            HuffmanLine { preflen: 7, rangelen: 3, rangelow: 17 },
            HuffmanLine { preflen: 7, rangelen: 4, rangelow: 25 },
            HuffmanLine { preflen: 8, rangelen: 5, rangelow: 41 },
            HuffmanLine { preflen: 8, rangelen: 32, rangelow: 73 },
            HuffmanLine { preflen: 0, rangelen: 32, rangelow: -1i32 },
            HuffmanLine { preflen: 0, rangelen: 32, rangelow: 0 },
        ]    } else if index == 12 {
        seq![
            HuffmanLine { preflen: 1, rangelen: 0, rangelow: 1 },
            HuffmanLine { preflen: 3, rangelen: 0, rangelow: 2 },
            HuffmanLine { preflen: 4, rangelen: 0, rangelow: 3 },
            HuffmanLine { preflen: 5, rangelen: 0, rangelow: 4 },
            HuffmanLine { preflen: 4, rangelen: 1, rangelow: 5 },
            HuffmanLine { preflen: 3, rangelen: 3, rangelow: 7 },
            HuffmanLine { preflen: 6, rangelen: 1, rangelow: 15 },
            HuffmanLine { preflen: 6, rangelen: 2, rangelow: 17 },
            HuffmanLine { preflen: 6, rangelen: 3, rangelow: 21 },
            HuffmanLine { preflen: 6, rangelen: 4, rangelow: 29 },
            HuffmanLine { preflen: 6, rangelen: 5, rangelow: 45 },
            HuffmanLine { preflen: 7, rangelen: 6, rangelow: 77 },
            HuffmanLine { preflen: 0, rangelen: 32, rangelow: -1i32 },
            HuffmanLine { preflen: 7, rangelen: 32, rangelow: 141 },
        ]    } else if index == 13 {
        seq![
            HuffmanLine { preflen: 3, rangelen: 0, rangelow: -2i32 },
            HuffmanLine { preflen: 3, rangelen: 0, rangelow: -1i32 },
            HuffmanLine { preflen: 1, rangelen: 0, rangelow: 0 },
            HuffmanLine { preflen: 3, rangelen: 0, rangelow: 1 },
            HuffmanLine { preflen: 3, rangelen: 0, rangelow: 2 },
            HuffmanLine { preflen: 0, rangelen: 32, rangelow: -1i32 },
            HuffmanLine { preflen: 0, rangelen: 32, rangelow: 3 },
        ]    } else if index == 14 {
        seq![
            HuffmanLine { preflen: 7, rangelen: 4, rangelow: -24i32 },
            HuffmanLine { preflen: 6, rangelen: 2, rangelow: -8i32 },
            HuffmanLine { preflen: 5, rangelen: 1, rangelow: -4i32 },
            HuffmanLine { preflen: 4, rangelen: 0, rangelow: -2i32 },
            HuffmanLine { preflen: 3, rangelen: 0, rangelow: -1i32 },
            HuffmanLine { preflen: 1, rangelen: 0, rangelow: 0 },
            HuffmanLine { preflen: 3, rangelen: 0, rangelow: 1 },
            HuffmanLine { preflen: 4, rangelen: 0, rangelow: 2 },
            HuffmanLine { preflen: 5, rangelen: 1, rangelow: 3 },
            HuffmanLine { preflen: 6, rangelen: 2, rangelow: 5 },
            HuffmanLine { preflen: 7, rangelen: 4, rangelow: 9 },
            HuffmanLine { preflen: 7, rangelen: 32, rangelow: -25i32 },
            HuffmanLine { preflen: 7, rangelen: 32, rangelow: 25 },
        ]
    } else {
        Seq::empty()
    }
}

/// Whether standard table `index` codes OOB (Tables B.2, B.3, B.8, B.9 and B.10).
pub const STANDARD_TABLE_HTOOB: [bool; 15] = [
    false, true, true, false, false,
    false, false, true, true, true,
    false, false, false, false, false,
];

/// The HTOOB flag of standard table `index`.
pub open spec fn std_htoob(index: int) -> bool {
    index == 1 || index == 2 || index == 7 || index == 8 || index == 9
}

/// The lines of standard table `index` (0 for Table B.1 to 14 for Table B.15); none
/// for other numbers.
pub fn standard_table_lines(index: usize) -> (v: Vec<HuffmanLine>)
    ensures
        v@ == std_lines(index as int),
{
    if index == 0 {
        vec![
            HuffmanLine { preflen: 1, rangelen: 4, rangelow: 0 },
            HuffmanLine { preflen: 2, rangelen: 8, rangelow: 16 },
            HuffmanLine { preflen: 3, rangelen: 16, rangelow: 272 },
            HuffmanLine { preflen: 0, rangelen: 32, rangelow: -1 },
            HuffmanLine { preflen: 3, rangelen: 32, rangelow: 65808 },
        ]    } else if index == 1 {
        vec![
            HuffmanLine { preflen: 1, rangelen: 0, rangelow: 0 },
            HuffmanLine { preflen: 2, rangelen: 0, rangelow: 1 },
            HuffmanLine { preflen: 3, rangelen: 0, rangelow: 2 },
            HuffmanLine { preflen: 4, rangelen: 3, rangelow: 3 },
            HuffmanLine { preflen: 5, rangelen: 6, rangelow: 11 },
            HuffmanLine { preflen: 0, rangelen: 32, rangelow: -1 },
            HuffmanLine { preflen: 6, rangelen: 32, rangelow: 75 },
            HuffmanLine { preflen: 6, rangelen: 0, rangelow: 0 },
        ]    } else if index == 2 {
        vec![
            HuffmanLine { preflen: 8, rangelen: 8, rangelow: -256 },
            HuffmanLine { preflen: 1, rangelen: 0, rangelow: 0 },
            HuffmanLine { preflen: 2, rangelen: 0, rangelow: 1 },
            HuffmanLine { preflen: 3, rangelen: 0, rangelow: 2 },
            HuffmanLine { preflen: 4, rangelen: 3, rangelow: 3 },
            HuffmanLine { preflen: 5, rangelen: 6, rangelow: 11 },
            HuffmanLine { preflen: 8, rangelen: 32, rangelow: -257 },
            HuffmanLine { preflen: 7, rangelen: 32, rangelow: 75 },
            HuffmanLine { preflen: 6, rangelen: 0, rangelow: 0 },
        ]    } else if index == 3 {
        vec![
            HuffmanLine { preflen: 1, rangelen: 0, rangelow: 1 },
            HuffmanLine { preflen: 2, rangelen: 0, rangelow: 2 },
            HuffmanLine { preflen: 3, rangelen: 0, rangelow: 3 },
            HuffmanLine { preflen: 4, rangelen: 3, rangelow: 4 },
            HuffmanLine { preflen: 5, rangelen: 6, rangelow: 12 },
            HuffmanLine { preflen: 0, rangelen: 32, rangelow: -1 },
            HuffmanLine { preflen: 5, rangelen: 32, rangelow: 76 },
        ]    } else if index == 4 {
        vec![
            HuffmanLine { preflen: 7, rangelen: 8, rangelow: -255 },
            HuffmanLine { preflen: 1, rangelen: 0, rangelow: 1 },
            HuffmanLine { preflen: 2, rangelen: 0, rangelow: 2 },
            HuffmanLine { preflen: 3, rangelen: 0, rangelow: 3 },
            HuffmanLine { preflen: 4, rangelen: 3, rangelow: 4 },
            HuffmanLine { preflen: 5, rangelen: 6, rangelow: 12 },
            HuffmanLine { preflen: 7, rangelen: 32, rangelow: -256 },
            HuffmanLine { preflen: 6, rangelen: 32, rangelow: 76 },
        ]    } else if index == 5 {
        vec![
            HuffmanLine { preflen: 5, rangelen: 10, rangelow: -2048 },
            HuffmanLine { preflen: 4, rangelen: 9, rangelow: -1024 },
            HuffmanLine { preflen: 4, rangelen: 8, rangelow: -512 },
            HuffmanLine { preflen: 4, rangelen: 7, rangelow: -256 },
            HuffmanLine { preflen: 5, rangelen: 6, rangelow: -128 },
            HuffmanLine { preflen: 5, rangelen: 5, rangelow: -64 },
            HuffmanLine { preflen: 4, rangelen: 5, rangelow: -32 },
            HuffmanLine { preflen: 2, rangelen: 7, rangelow: 0 },
            HuffmanLine { preflen: 3, rangelen: 7, rangelow: 128 },
            HuffmanLine { preflen: 3, rangelen: 8, rangelow: 256 },
            HuffmanLine { preflen: 4, rangelen: 9, rangelow: 512 },
            HuffmanLine { preflen: 4, rangelen: 10, rangelow: 1024 },
            HuffmanLine { preflen: 6, rangelen: 32, rangelow: -2049 },
            HuffmanLine { preflen: 6, rangelen: 32, rangelow: 2048 },
        ]    } else if index == 6 {
        vec![
            HuffmanLine { preflen: 4, rangelen: 9, rangelow: -1024 },
            HuffmanLine { preflen: 3, rangelen: 8, rangelow: -512 },
            HuffmanLine { preflen: 4, rangelen: 7, rangelow: -256 },
            HuffmanLine { preflen: 5, rangelen: 6, rangelow: -128 },
            HuffmanLine { preflen: 5, rangelen: 5, rangelow: -64 },
            HuffmanLine { preflen: 4, rangelen: 5, rangelow: -32 },
            HuffmanLine { preflen: 4, rangelen: 5, rangelow: 0 },
            HuffmanLine { preflen: 5, rangelen: 5, rangelow: 32 },
            HuffmanLine { preflen: 5, rangelen: 6, rangelow: 64 },
            HuffmanLine { preflen: 4, rangelen: 7, rangelow: 128 },
            HuffmanLine { preflen: 3, rangelen: 8, rangelow: 256 },
            HuffmanLine { preflen: 3, rangelen: 9, rangelow: 512 },
            HuffmanLine { preflen: 3, rangelen: 10, rangelow: 1024 },
            HuffmanLine { preflen: 5, rangelen: 32, rangelow: -1025 },
            HuffmanLine { preflen: 5, rangelen: 32, rangelow: 2048 },
        ]    } else if index == 7 {
        vec![
            HuffmanLine { preflen: 8, rangelen: 3, rangelow: -15 },
            HuffmanLine { preflen: 9, rangelen: 1, rangelow: -7 },
            HuffmanLine { preflen: 8, rangelen: 1, rangelow: -5 },
            HuffmanLine { preflen: 9, rangelen: 0, rangelow: -3 },
            HuffmanLine { preflen: 7, rangelen: 0, rangelow: -2 },
            HuffmanLine { preflen: 4, rangelen: 0, rangelow: -1 },
            HuffmanLine { preflen: 2, rangelen: 1, rangelow: 0 },
            HuffmanLine { preflen: 5, rangelen: 0, rangelow: 2 },
            HuffmanLine { preflen: 6, rangelen: 0, rangelow: 3 },
            HuffmanLine { preflen: 3, rangelen: 4, rangelow: 4 },
            HuffmanLine { preflen: 6, rangelen: 1, rangelow: 20 },
            HuffmanLine { preflen: 4, rangelen: 4, rangelow: 22 },
            HuffmanLine { preflen: 4, rangelen: 5, rangelow: 38 },
            HuffmanLine { preflen: 5, rangelen: 6, rangelow: 70 },
            HuffmanLine { preflen: 5, rangelen: 7, rangelow: 134 },
            HuffmanLine { preflen: 6, rangelen: 7, rangelow: 262 },
            HuffmanLine { preflen: 7, rangelen: 8, rangelow: 390 },
            HuffmanLine { preflen: 6, rangelen: 10, rangelow: 646 },
            HuffmanLine { preflen: 9, rangelen: 32, rangelow: -16 },
            HuffmanLine { preflen: 9, rangelen: 32, rangelow: 1670 },
            HuffmanLine { preflen: 2, rangelen: 0, rangelow: 0 },
        ]    } else if index == 8 {
        vec![
            HuffmanLine { preflen: 8, rangelen: 4, rangelow: -31 },
            HuffmanLine { preflen: 9, rangelen: 2, rangelow: -15 },
            HuffmanLine { preflen: 8, rangelen: 2, rangelow: -11 },
            HuffmanLine { preflen: 9, rangelen: 1, rangelow: -7 },
            HuffmanLine { preflen: 7, rangelen: 1, rangelow: -5 },
            HuffmanLine { preflen: 4, rangelen: 1, rangelow: -3 },
            HuffmanLine { preflen: 3, rangelen: 1, rangelow: -1 },
            HuffmanLine { preflen: 3, rangelen: 1, rangelow: 1 },
            HuffmanLine { preflen: 5, rangelen: 1, rangelow: 3 },
            HuffmanLine { preflen: 6, rangelen: 1, rangelow: 5 },
            HuffmanLine { preflen: 3, rangelen: 5, rangelow: 7 },
            HuffmanLine { preflen: 6, rangelen: 2, rangelow: 39 },
            HuffmanLine { preflen: 4, rangelen: 5, rangelow: 43 },
            HuffmanLine { preflen: 4, rangelen: 6, rangelow: 75 },
            HuffmanLine { preflen: 5, rangelen: 7, rangelow: 139 },
            HuffmanLine { preflen: 5, rangelen: 8, rangelow: 267 },
            HuffmanLine { preflen: 6, rangelen: 8, rangelow: 523 },
            HuffmanLine { preflen: 7, rangelen: 9, rangelow: 779 },
            HuffmanLine { preflen: 6, rangelen: 11, rangelow: 1291 },
            HuffmanLine { preflen: 9, rangelen: 32, rangelow: -32 },
            HuffmanLine { preflen: 9, rangelen: 32, rangelow: 3339 },
            HuffmanLine { preflen: 2, rangelen: 0, rangelow: 0 },
        ]    } else if index == 9 {
        vec![
            HuffmanLine { preflen: 7, rangelen: 4, rangelow: -21 },
            HuffmanLine { preflen: 8, rangelen: 0, rangelow: -5 },
            HuffmanLine { preflen: 7, rangelen: 0, rangelow: -4 },
            HuffmanLine { preflen: 5, rangelen: 0, rangelow: -3 },
            HuffmanLine { preflen: 2, rangelen: 2, rangelow: -2 },
            HuffmanLine { preflen: 5, rangelen: 0, rangelow: 2 },
            HuffmanLine { preflen: 6, rangelen: 0, rangelow: 3 },
            HuffmanLine { preflen: 7, rangelen: 0, rangelow: 4 },
            HuffmanLine { preflen: 8, rangelen: 0, rangelow: 5 },
            HuffmanLine { preflen: 2, rangelen: 6, rangelow: 6 },
            HuffmanLine { preflen: 5, rangelen: 5, rangelow: 70 },
            HuffmanLine { preflen: 6, rangelen: 5, rangelow: 102 },
            HuffmanLine { preflen: 6, rangelen: 6, rangelow: 134 },
            HuffmanLine { preflen: 6, rangelen: 7, rangelow: 198 },
            HuffmanLine { preflen: 6, rangelen: 8, rangelow: 326 },
            HuffmanLine { preflen: 6, rangelen: 9, rangelow: 582 },
            HuffmanLine { preflen: 6, rangelen: 10, rangelow: 1094 },
            HuffmanLine { preflen: 7, rangelen: 11, rangelow: 2118 },
            HuffmanLine { preflen: 8, rangelen: 32, rangelow: -22 },
            HuffmanLine { preflen: 8, rangelen: 32, rangelow: 4166 },
            HuffmanLine { preflen: 2, rangelen: 0, rangelow: 0 },
        ]    } else if index == 10 {
        vec![
            HuffmanLine { preflen: 1, rangelen: 0, rangelow: 1 },
            HuffmanLine { preflen: 2, rangelen: 1, rangelow: 2 },
            HuffmanLine { preflen: 4, rangelen: 0, rangelow: 4 },
            HuffmanLine { preflen: 4, rangelen: 1, rangelow: 5 },
            HuffmanLine { preflen: 5, rangelen: 1, rangelow: 7 },
            HuffmanLine { preflen: 5, rangelen: 2, rangelow: 9 },
            HuffmanLine { preflen: 6, rangelen: 2, rangelow: 13 },
            HuffmanLine { preflen: 7, rangelen: 2, rangelow: 17 },
            HuffmanLine { preflen: 7, rangelen: 3, rangelow: 21 },
            HuffmanLine { preflen: 7, rangelen: 4, rangelow: 29 },
            HuffmanLine { preflen: 7, rangelen: 5, rangelow: 45 },
            HuffmanLine { preflen: 7, rangelen: 6, rangelow: 77 },
            HuffmanLine { preflen: 0, rangelen: 32, rangelow: -1 },
            HuffmanLine { preflen: 7, rangelen: 32, rangelow: 141 },
        ]    } else if index == 11 {
        vec![
            HuffmanLine { preflen: 1, rangelen: 0, rangelow: 1 },
            HuffmanLine { preflen: 2, rangelen: 0, rangelow: 2 },
            HuffmanLine { preflen: 3, rangelen: 1, rangelow: 3 },
            HuffmanLine { preflen: 5, rangelen: 0, rangelow: 5 },
            HuffmanLine { preflen: 5, rangelen: 1, rangelow: 6 },
            HuffmanLine { preflen: 6, rangelen: 1, rangelow: 8 },
            HuffmanLine { preflen: 7, rangelen: 0, rangelow: 10 },
            HuffmanLine { preflen: 7, rangelen: 1, rangelow: 11 },
            HuffmanLine { preflen: 7, rangelen: 2, rangelow: 13 },
            HuffmanLine { preflen: 7, rangelen: 3, rangelow: 17 },
            HuffmanLine { preflen: 7, rangelen: 4, rangelow: 25 },
            HuffmanLine { preflen: 8, rangelen: 5, rangelow: 41 },
            HuffmanLine { preflen: 8, rangelen: 32, rangelow: 73 },
            HuffmanLine { preflen: 0, rangelen: 32, rangelow: -1 },
            HuffmanLine { preflen: 0, rangelen: 32, rangelow: 0 },
        ]    } else if index == 12 {
        vec![
            HuffmanLine { preflen: 1, rangelen: 0, rangelow: 1 },
            HuffmanLine { preflen: 3, rangelen: 0, rangelow: 2 },
            HuffmanLine { preflen: 4, rangelen: 0, rangelow: 3 },
            HuffmanLine { preflen: 5, rangelen: 0, rangelow: 4 },
            HuffmanLine { preflen: 4, rangelen: 1, rangelow: 5 },
            HuffmanLine { preflen: 3, rangelen: 3, rangelow: 7 },
            HuffmanLine { preflen: 6, rangelen: 1, rangelow: 15 },
            HuffmanLine { preflen: 6, rangelen: 2, rangelow: 17 },
            HuffmanLine { preflen: 6, rangelen: 3, rangelow: 21 },
            HuffmanLine { preflen: 6, rangelen: 4, rangelow: 29 },
            HuffmanLine { preflen: 6, rangelen: 5, rangelow: 45 },
            HuffmanLine { preflen: 7, rangelen: 6, rangelow: 77 },
            HuffmanLine { preflen: 0, rangelen: 32, rangelow: -1 },
            HuffmanLine { preflen: 7, rangelen: 32, rangelow: 141 },
        ]    } else if index == 13 {
        vec![
            HuffmanLine { preflen: 3, rangelen: 0, rangelow: -2 },
            HuffmanLine { preflen: 3, rangelen: 0, rangelow: -1 },
            HuffmanLine { preflen: 1, rangelen: 0, rangelow: 0 },
            HuffmanLine { preflen: 3, rangelen: 0, rangelow: 1 },
            HuffmanLine { preflen: 3, rangelen: 0, rangelow: 2 },
            HuffmanLine { preflen: 0, rangelen: 32, rangelow: -1 },
            HuffmanLine { preflen: 0, rangelen: 32, rangelow: 3 },
        ]    } else if index == 14 {
        vec![
            HuffmanLine { preflen: 7, rangelen: 4, rangelow: -24 },
            HuffmanLine { preflen: 6, rangelen: 2, rangelow: -8 },
            HuffmanLine { preflen: 5, rangelen: 1, rangelow: -4 },
            HuffmanLine { preflen: 4, rangelen: 0, rangelow: -2 },
            HuffmanLine { preflen: 3, rangelen: 0, rangelow: -1 },
            HuffmanLine { preflen: 1, rangelen: 0, rangelow: 0 },
            HuffmanLine { preflen: 3, rangelen: 0, rangelow: 1 },
            HuffmanLine { preflen: 4, rangelen: 0, rangelow: 2 },
            HuffmanLine { preflen: 5, rangelen: 1, rangelow: 3 },
            HuffmanLine { preflen: 6, rangelen: 2, rangelow: 5 },
            HuffmanLine { preflen: 7, rangelen: 4, rangelow: 9 },
            HuffmanLine { preflen: 7, rangelen: 32, rangelow: -25 },
            HuffmanLine { preflen: 7, rangelen: 32, rangelow: 25 },
        ]
    } else {
        Vec::new()
    }
}

/// Build the lookup table of standard table `index` (0 for Table B.1 to 14 for Table
/// B.15).
pub fn build_standard_table(index: usize) -> (r: Result<HuffmanTable, Jbig2Error>)
    ensures
        index >= 15 ==> (r matches Err(e) && e is InvalidData),
        index < 15 ==> match spec_build_table(std_lines(index as int), std_htoob(index as int)) {
            None => r matches Err(e) && e is InvalidData,
            Some((lts, e)) => r matches Ok(t) && t.log_size() == lts && t.entries_view() == e,
        },
        r matches Ok(t) ==> t.wf(),
{
    if index >= 15 {
        return Err(Jbig2Error::InvalidData("invalid standard table index".to_owned()));
    }
    assert(STANDARD_TABLE_HTOOB@ == seq![
        false, true, true, false, false,
        false, false, true, true, true,
        false, false, false, false, false,
    ]);
    let lines = standard_table_lines(index);
    proof {
        assert(lines_ok(lines@));
    }
    let params = HuffmanParams { htoob: STANDARD_TABLE_HTOOB[index], lines };
    build_table(&params)
}

/// Read `n` bits of `data` from bit `*bit_offset` on, MSB first (zeros past the end),
/// and move the offset past them.
fn read_bits_from(data: &[u8], bit_offset: &mut u64, n: u8) -> (v: u32)
    requires
        n <= 32,
        *old(bit_offset) + n <= u64::MAX,
    ensures
        *final(bit_offset) == *old(bit_offset) + n,
        v as nat == stream_value(data@, *old(bit_offset) as int, n as nat),
{
    let ghost start = *bit_offset;
    let mut result: u32 = 0;
    let mut i: u8 = 0;
    proof {
        vstd::arithmetic::power2::lemma2_to64();
    }
    while i < n
        invariant
            i <= n,
            n <= 32,
            *bit_offset == start + i,
            start + n <= u64::MAX,
            result as nat == stream_value(data@, start as int, i as nat),
            result < vstd::arithmetic::power2::pow2(i as nat),
        decreases n - i,
    {
        let off = *bit_offset;
        let byte_idx = off / 8;
        let bit_idx = 7 - (off % 8);
        proof {
            vstd::arithmetic::power2::lemma_pow2_unfold((i + 1) as nat);
            vstd::arithmetic::power2::lemma2_to64();
            if i + 1 < 32 {
                vstd::arithmetic::power2::lemma_pow2_strictly_increases((i + 1) as nat, 32);
            }
        }
        let bit: u32 = if byte_idx < data.len() as u64 {
            let b = data[byte_idx as usize];
            let k = bit_idx as u8;
            assert((b >> k) & 1 <= 1) by (bit_vector);
            assert(stream_bit(data@, off as int) == crate::image::bit_of(b, (off % 8) as int));
            ((b >> k) & 1) as u32
        } else {
            0
        };
        assert(bit == stream_bit(data@, off as int));
        assert((result << 1u32) | bit == result * 2 + bit) by (bit_vector)
            requires
                bit <= 1,
                result < 0x8000_0000,
        ;
        result = (result << 1u32) | bit;
        *bit_offset += 1;
        i += 1;
    }
    result
}

/// The lines of a user-defined table from bit `pos` of the line data (B.2 step 5):
/// lines of PREFLEN (`htps` bits) and RANGELEN (`htrs` bits) from CURRANGELOW `cur` up
/// to HTHIGH; `None` for a range length of 31 bits or more, or a range that runs past
/// the 32-bit values. The lines and the bit position after them.
/// How far `cur` lies below `hi`.
pub open spec fn gap(cur: i32, hi: i32) -> int {
    if cur < hi {
        hi - cur
    } else {
        0
    }
}

pub open spec fn user_lines(
    d: Seq<u8>,
    htps: nat,
    htrs: nat,
    cur: i32,
    hthigh: i32,
    pos: int,
    acc: Seq<HuffmanLine>,
) -> Option<(Seq<HuffmanLine>, int)>
    decreases gap(cur, hthigh),
{
    if cur >= hthigh {
        Some((acc, pos))
    } else {
        let p = stream_value(d, pos, htps);
        let r = stream_value(d, pos + htps, htrs);
        if r >= 31 || cur + vstd::arithmetic::power2::pow2(r) > i32::MAX {
            None
        } else {
            proof {
                vstd::arithmetic::power2::lemma_pow2_pos(r);
            }
            user_lines(
                d,
                htps,
                htrs,
                (cur + vstd::arithmetic::power2::pow2(r)) as i32,
                hthigh,
                pos + htps + htrs,
                acc.push(HuffmanLine { preflen: p as u8, rangelen: r as u8, rangelow: cur }),
            )
        }
    }
}

/// The user-defined table coded in `data` (B.2): flags, HTLOW, HTHIGH, then the lines;
/// `None` when `data` is shorter than 10 bytes, HTLOW is not below HTHIGH, or a range
/// line is refused by `user_lines`.
pub open spec fn spec_user_table(data: Seq<u8>) -> Option<(bool, Seq<HuffmanLine>)> {
    if data.len() < 10 {
        None
    } else {
        let flags = data[0];
        let htoob = flags & 1 != 0;
        let htps = (((flags >> 1u8) & 7) + 1) as nat;
        let htrs = (((flags >> 4u8) & 7) + 1) as nat;
        let htlow = be_u32(data, 1) as i32;
        let hthigh = be_u32(data, 5) as i32;
        let d = data.subrange(9, data.len() as int);
        if htlow >= hthigh {
            None
        } else {
            match user_lines(d, htps, htrs, htlow, hthigh, 0, Seq::empty()) {
                None => None,
                Some((ls, pos)) => {
                    let low = HuffmanLine {
                        preflen: stream_value(d, pos, htps) as u8,
                        rangelen: 32,
                        rangelow: htlow.wrapping_sub(1),
                    };
                    let high = HuffmanLine { preflen: stream_value(d, pos + htps, htps) as u8, rangelen: 32, rangelow: hthigh };
                    let oob = HuffmanLine { preflen: stream_value(d, pos + 2 * htps, htps) as u8, rangelen: 0, rangelow: 0 };
                    Some((htoob, if htoob { ls.push(low).push(high).push(oob) } else { ls.push(low).push(high) }))
                },
            }
        }
    }
}

/// Parse a user-defined Huffman table (segment type 53, B.2).
pub fn parse_user_table(data: &[u8]) -> (r: Result<HuffmanParams, Jbig2Error>)
    requires
        data@.len() * 8 <= usize::MAX,
    ensures
        match spec_user_table(data@) {
            None => r matches Err(e) && e is InvalidData,
            Some((htoob, ls)) => r matches Ok(p) && p.htoob == htoob && p.lines@ == ls,
        },
{
    if data.len() < 10 {
        return Err(Jbig2Error::InvalidData("user table segment too short".to_owned()));
    }
    let flags = data[0];
    let htoob = (flags & 0x01) != 0;
    assert((flags >> 1u8) & 7 < 8 && (flags >> 4u8) & 7 < 8) by (bit_vector);
    let htps = ((flags >> 1u8) & 0x07) + 1;
    let htrs = ((flags >> 4u8) & 0x07) + 1;
    let htlow = crate::bytes::read_u32_be(data, 1) as i32;
    let hthigh = crate::bytes::read_u32_be(data, 5) as i32;
    if htlow >= hthigh {
        return Err(Jbig2Error::InvalidData("invalid user table range".to_owned()));
    }
    let lines_data = vstd::slice::slice_subrange(data, 9, data.len());
    let ghost d = lines_data@;
    assert(d == data@.subrange(9, data@.len() as int));
    let mut bit_offset: u64 = 0;
    let mut lines: Vec<HuffmanLine> = Vec::new();
    let mut currangelow = htlow;
    let ghost fin = user_lines(d, htps as nat, htrs as nat, htlow, hthigh, 0, Seq::empty());
    let mut failed = false;
    while currangelow < hthigh
        invariant_except_break
            user_lines(d, htps as nat, htrs as nat, currangelow, hthigh, bit_offset as int, lines@) == fin,
            !failed,
            bit_offset as int <= 16 * ((if currangelow < hthigh {
                currangelow as int
            } else {
                hthigh as int
            }) - htlow as int),
        invariant
            d == lines_data@,
            1 <= htps <= 8,
            1 <= htrs <= 8,
            htlow <= currangelow,
            htlow < hthigh,
        ensures
            failed ==> fin is None,
            !failed ==> fin == Some((lines@, bit_offset as int)),
            !failed ==> bit_offset as int <= 16 * (hthigh as int - htlow as int),
        decreases gap(currangelow, hthigh),
    {
        let ghost pos0 = bit_offset as int;
        proof {
            crate::bitreader::lemma_stream_value_bound(d, pos0, htps as nat);
            crate::bitreader::lemma_stream_value_bound(d, pos0 + htps, htrs as nat);
            vstd::arithmetic::power2::lemma2_to64();
            if htps < 8 {
                vstd::arithmetic::power2::lemma_pow2_strictly_increases(htps as nat, 8);
            }
            if htrs < 8 {
                vstd::arithmetic::power2::lemma_pow2_strictly_increases(htrs as nat, 8);
            }
        }
        let preflen = read_bits_from(lines_data, &mut bit_offset, htps) as u8;
        let rangelen = read_bits_from(lines_data, &mut bit_offset, htrs) as u8;
        if rangelen >= 31 {
            failed = true;
            break;
        }
        proof {
            vstd::arithmetic::power2::lemma2_to64();
            vstd::bits::lemma_u32_shl_is_mul(1, rangelen as u32);
        }
        let step = (1u32 << rangelen) as i32;
        let next = currangelow.checked_add(step);
        match next {
            None => {
                failed = true;
                break;
            },
            Some(c) => {
                lines.push(HuffmanLine { preflen, rangelen, rangelow: currangelow });
                currangelow = c;
            },
        }
    }
    if failed {
        return Err(Jbig2Error::InvalidData("invalid user table range line".to_owned()));
    }
    let preflen = read_bits_from(lines_data, &mut bit_offset, htps) as u8;
    lines.push(HuffmanLine { preflen, rangelen: 32, rangelow: htlow.wrapping_sub(1) });
    let preflen = read_bits_from(lines_data, &mut bit_offset, htps) as u8;
    lines.push(HuffmanLine { preflen, rangelen: 32, rangelow: hthigh });
    if htoob {
        let preflen = read_bits_from(lines_data, &mut bit_offset, htps) as u8;
        lines.push(HuffmanLine { preflen, rangelen: 0, rangelow: 0 });
    }
    Ok(HuffmanParams { htoob, lines })
}

} // verus!
