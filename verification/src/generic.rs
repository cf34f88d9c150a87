//! Generic region decoding with arithmetic coding (ITU T.88 6.2, 7.4.6):
//! templates 0 to 3 and typical prediction (TPGD).

use vstd::prelude::*;
use crate::arith::{ArithCx, ArithRegs, ArithState, spec_decode};
use crate::error::Jbig2Error;
use crate::image::{ComposeOp, Jbig2Image, bit_of, byte_pos, pixel_in, with_bit, stride_of, set_pixel_data,
    lemma_pixel_index, lemma_index_unique, lemma_with_bit, lemma_bit_of_range};

verus! {

/// Generic region decoding parameters (Table 2).
#[derive(Debug, Clone, Copy)]
pub struct GenericRegionParams {
    pub mmr: bool,
    pub gb_template: u8,
    pub tpgdon: bool,
    pub use_skip: bool,
    pub gbat: [i8; 8],
}

impl GenericRegionParams {
    /// Parameters from the generic region segment flags byte, and the number of bytes of
    /// adaptive template positions that follow the flags.
    pub fn parse(flags_byte: u8) -> (r: (Self, usize))
        ensures
            r.0.mmr == (flags_byte & 1 != 0),
            r.0.gb_template == (flags_byte >> 1u8) & 3,
            r.0.tpgdon == ((flags_byte >> 3u8) & 1 != 0),
            !r.0.use_skip,
            forall|i: int| 0 <= i < 8 ==> r.0.gbat[i] == 0,
            r.1 == if r.0.mmr {
                0usize
            } else if r.0.gb_template == 0 {
                8usize
            } else {
                2usize
            },
    {
        let mmr = flags_byte & 1 != 0;
        let gb_template = (flags_byte >> 1u8) & 3;
        let tpgdon = (flags_byte >> 3u8) & 1 != 0;
        let gbat_size: usize = if mmr {
            0
        } else if gb_template == 0 {
            8
        } else {
            2
        };
        (GenericRegionParams { mmr, gb_template, tpgdon, use_skip: false, gbat: [0i8; 8] }, gbat_size)
    }

    /// Take the adaptive template positions from `data` (eight bytes for template 0, two
    /// otherwise; as many as `data` has).
    pub fn set_gbat(&mut self, data: &[u8])
        ensures
            ({
                let n: int = if old(self).gb_template == 0 { 8 } else { 2 };
                let m: int = if n < data@.len() { n } else { data@.len() as int };
                &&& final(self).mmr == old(self).mmr
                &&& final(self).gb_template == old(self).gb_template
                &&& final(self).tpgdon == old(self).tpgdon
                &&& final(self).use_skip == old(self).use_skip
                &&& forall|i: int| 0 <= i < 8 ==> final(self).gbat[i] == if i < m {
                    data@[i] as i8
                } else {
                    old(self).gbat[i]
                }
            }),
    {
        let n: usize = if self.gb_template == 0 { 8 } else { 2 };
        let m: usize = if n < data.len() { n } else { data.len() };
        let mut i: usize = 0;
        while i < m
            invariant
                m <= 8,
                m <= data@.len(),
                i <= m,
                self.mmr == old(self).mmr,
                self.gb_template == old(self).gb_template,
                self.tpgdon == old(self).tpgdon,
                self.use_skip == old(self).use_skip,
                forall|j: int| 0 <= j < 8 ==> self.gbat[j] == if j < i {
                    data@[j] as i8
                } else {
                    old(self).gbat[j]
                },
            decreases m - i,
        {
            self.gbat[i] = data[i] as i8;
            i += 1;
        }
    }
}

/// Number of contexts of a template: 2^16, 2^13 or 2^10.
pub open spec fn spec_stats_size(template: u8) -> int {
    if template == 0 {
        0x10000
    } else if template == 1 {
        0x2000
    } else {
        0x400
    }
}

/// Size of the context table for `template` (2^16 for template 0, 2^13 for 1, 2^10
/// for 2 and 3).
pub fn stats_size(template: u8) -> (n: usize)
    ensures
        n == spec_stats_size(template),
{
    match template {
        0 => 0x10000,
        1 => 0x2000,
        _ => 0x400,
    }
}

/// Pixel (x + dx, y + dy) of a bitmap, the coordinates taken modulo 2^32.
pub open spec fn pix(w: int, h: int, s: int, data: Seq<u8>, x: int, y: int, dx: int, dy: int) -> u32 {
    pixel_in(w, h, s, data, ((x + dx) as u32) as int, ((y + dy) as u32) as int) as u32
}

/// The 16-bit context of template 0 at (x, y) (Figure 3) with adaptive pixels `at`; bit 0 is the pixel left of (x, y),
/// and the pixels of the rows above come from right to left.
pub open spec fn ctx_t0(w: int, h: int, s: int, d: Seq<u8>, at: [i8; 8], x: int, y: int) -> u32 {
    pix(w, h, s, d, x, y, -1, 0)
        | (pix(w, h, s, d, x, y, -2, 0) << 1u32)
        | (pix(w, h, s, d, x, y, -3, 0) << 2u32)
        | (pix(w, h, s, d, x, y, -4, 0) << 3u32)
        | (pix(w, h, s, d, x, y, at[0] as int, at[1] as int) << 4u32)
        | (pix(w, h, s, d, x, y, 2, -1) << 5u32)
        | (pix(w, h, s, d, x, y, 1, -1) << 6u32)
        | (pix(w, h, s, d, x, y, 0, -1) << 7u32)
        | (pix(w, h, s, d, x, y, -1, -1) << 8u32)
        | (pix(w, h, s, d, x, y, -2, -1) << 9u32)
        | (pix(w, h, s, d, x, y, at[2] as int, at[3] as int) << 10u32)
        | (pix(w, h, s, d, x, y, at[4] as int, at[5] as int) << 11u32)
        | (pix(w, h, s, d, x, y, 1, -2) << 12u32)
        | (pix(w, h, s, d, x, y, 0, -2) << 13u32)
        | (pix(w, h, s, d, x, y, -1, -2) << 14u32)
        | (pix(w, h, s, d, x, y, at[6] as int, at[7] as int) << 15u32)
}

/// The 13-bit context of template 1 at (x, y) (Figure 4); bit 0 is the pixel left of (x, y),
/// and the pixels of the rows above come from right to left.
pub open spec fn ctx_t1(w: int, h: int, s: int, d: Seq<u8>, at: [i8; 8], x: int, y: int) -> u32 {
    pix(w, h, s, d, x, y, -1, 0)
        | (pix(w, h, s, d, x, y, -2, 0) << 1u32)
        | (pix(w, h, s, d, x, y, -3, 0) << 2u32)
        | (pix(w, h, s, d, x, y, at[0] as int, at[1] as int) << 3u32)
        | (pix(w, h, s, d, x, y, 2, -1) << 4u32)
        | (pix(w, h, s, d, x, y, 1, -1) << 5u32)
        | (pix(w, h, s, d, x, y, 0, -1) << 6u32)
        | (pix(w, h, s, d, x, y, -1, -1) << 7u32)
        | (pix(w, h, s, d, x, y, -2, -1) << 8u32)
        | (pix(w, h, s, d, x, y, 2, -2) << 9u32)
        | (pix(w, h, s, d, x, y, 1, -2) << 10u32)
        | (pix(w, h, s, d, x, y, 0, -2) << 11u32)
        | (pix(w, h, s, d, x, y, -1, -2) << 12u32)
}

/// The 10-bit context of template 2 at (x, y) (Figure 5); bit 0 is the pixel left of (x, y),
/// and the pixels of the rows above come from right to left.
pub open spec fn ctx_t2(w: int, h: int, s: int, d: Seq<u8>, at: [i8; 8], x: int, y: int) -> u32 {
    pix(w, h, s, d, x, y, -1, 0)
        | (pix(w, h, s, d, x, y, -2, 0) << 1u32)
        | (pix(w, h, s, d, x, y, at[0] as int, at[1] as int) << 2u32)
        | (pix(w, h, s, d, x, y, 1, -1) << 3u32)
        | (pix(w, h, s, d, x, y, 0, -1) << 4u32)
        | (pix(w, h, s, d, x, y, -1, -1) << 5u32)
        | (pix(w, h, s, d, x, y, -2, -1) << 6u32)
        | (pix(w, h, s, d, x, y, 1, -2) << 7u32)
        | (pix(w, h, s, d, x, y, 0, -2) << 8u32)
        | (pix(w, h, s, d, x, y, -1, -2) << 9u32)
}

/// The 10-bit context of template 3 at (x, y) (Figure 6); bit 0 is the pixel left of (x, y),
/// and the pixels of the rows above come from right to left.
pub open spec fn ctx_t3(w: int, h: int, s: int, d: Seq<u8>, at: [i8; 8], x: int, y: int) -> u32 {
    pix(w, h, s, d, x, y, -1, 0)
        | (pix(w, h, s, d, x, y, -2, 0) << 1u32)
        | (pix(w, h, s, d, x, y, -3, 0) << 2u32)
        | (pix(w, h, s, d, x, y, -4, 0) << 3u32)
        | (pix(w, h, s, d, x, y, at[0] as int, at[1] as int) << 4u32)
        | (pix(w, h, s, d, x, y, 1, -1) << 5u32)
        | (pix(w, h, s, d, x, y, 0, -1) << 6u32)
        | (pix(w, h, s, d, x, y, -1, -1) << 7u32)
        | (pix(w, h, s, d, x, y, -2, -1) << 8u32)
        | (pix(w, h, s, d, x, y, -3, -1) << 9u32)
}

/// Context of template 0 with the nominal adaptive pixels, bits in the order of the
/// line-buffer decoder: current row x-1..x-4, row y-1 x+3..x-3, row y-2 x+2..x-2.
pub open spec fn ctx_n0(w: int, h: int, s: int, d: Seq<u8>, x: int, y: int) -> u32 {
    pix(w, h, s, d, x, y, -1, 0) | (pix(w, h, s, d, x, y, -2, 0) << 1u32) | (pix(w, h, s, d, x, y, -3, 0) << 2u32)
        | (pix(w, h, s, d, x, y, -4, 0) << 3u32) | (pix(w, h, s, d, x, y, 3, -1) << 4u32) | (pix(w, h, s, d, x, y, 2, -1)
        << 5u32) | (pix(w, h, s, d, x, y, 1, -1) << 6u32) | (pix(w, h, s, d, x, y, 0, -1) << 7u32) | (pix(w, h, s, d, x, y,
        -1, -1) << 8u32) | (pix(w, h, s, d, x, y, -2, -1) << 9u32) | (pix(w, h, s, d, x, y, -3, -1) << 10u32) | (pix(w, h,
        s, d, x, y, 2, -2) << 11u32) | (pix(w, h, s, d, x, y, 1, -2) << 12u32) | (pix(w, h, s, d, x, y, 0, -2) << 13u32)
        | (pix(w, h, s, d, x, y, -1, -2) << 14u32) | (pix(w, h, s, d, x, y, -2, -2) << 15u32)
}

/// Context of template 1 with the nominal adaptive pixel, line-buffer bit order.
pub open spec fn ctx_n1(w: int, h: int, s: int, d: Seq<u8>, x: int, y: int) -> u32 {
    pix(w, h, s, d, x, y, -1, 0) | (pix(w, h, s, d, x, y, -2, 0) << 1u32) | (pix(w, h, s, d, x, y, -3, 0) << 2u32)
        | (pix(w, h, s, d, x, y, 3, -1) << 3u32) | (pix(w, h, s, d, x, y, 2, -1) << 4u32) | (pix(w, h, s, d, x, y, 1, -1)
        << 5u32) | (pix(w, h, s, d, x, y, 0, -1) << 6u32) | (pix(w, h, s, d, x, y, -1, -1) << 7u32) | (pix(w, h, s, d, x,
        y, -2, -1) << 8u32) | (pix(w, h, s, d, x, y, 2, -2) << 9u32) | (pix(w, h, s, d, x, y, 1, -2) << 10u32) | (pix(w,
        h, s, d, x, y, 0, -2) << 11u32) | (pix(w, h, s, d, x, y, -1, -2) << 12u32)
}

/// Context of template 2 with the nominal adaptive pixel, line-buffer bit order.
pub open spec fn ctx_n2(w: int, h: int, s: int, d: Seq<u8>, x: int, y: int) -> u32 {
    pix(w, h, s, d, x, y, -1, 0) | (pix(w, h, s, d, x, y, -2, 0) << 1u32) | (pix(w, h, s, d, x, y, 2, -1) << 2u32)
        | (pix(w, h, s, d, x, y, 1, -1) << 3u32) | (pix(w, h, s, d, x, y, 0, -1) << 4u32) | (pix(w, h, s, d, x, y, -1, -1)
        << 5u32) | (pix(w, h, s, d, x, y, -2, -1) << 6u32) | (pix(w, h, s, d, x, y, 1, -2) << 7u32) | (pix(w, h, s, d, x,
        y, 0, -2) << 8u32) | (pix(w, h, s, d, x, y, -1, -2) << 9u32)
}

/// Context of template 3 with the nominal adaptive pixel, line-buffer bit order.
pub open spec fn ctx_n3(w: int, h: int, s: int, d: Seq<u8>, x: int, y: int) -> u32 {
    pix(w, h, s, d, x, y, -1, 0) | (pix(w, h, s, d, x, y, -2, 0) << 1u32) | (pix(w, h, s, d, x, y, -3, 0) << 2u32)
        | (pix(w, h, s, d, x, y, -4, 0) << 3u32) | (pix(w, h, s, d, x, y, 2, -1) << 4u32) | (pix(w, h, s, d, x, y, 1, -1)
        << 5u32) | (pix(w, h, s, d, x, y, 0, -1) << 6u32) | (pix(w, h, s, d, x, y, -1, -1) << 7u32) | (pix(w, h, s, d, x,
        y, -2, -1) << 8u32) | (pix(w, h, s, d, x, y, -3, -1) << 9u32)
}

/// The context of `template` at (x, y) in the line-buffer bit order (nominal adaptive
/// pixels); 0 for an undefined template.
pub open spec fn nominal_context(template: u8, w: int, h: int, s: int, d: Seq<u8>, x: int, y: int) -> u32 {
    if template == 0 {
        ctx_n0(w, h, s, d, x, y)
    } else if template == 1 {
        ctx_n1(w, h, s, d, x, y)
    } else if template == 2 {
        ctx_n2(w, h, s, d, x, y)
    } else if template == 3 {
        ctx_n3(w, h, s, d, x, y)
    } else {
        0
    }
}

/// The adaptive pixels are the nominal ones of Table 5 / 6.2.5.4 for `template`.
pub open spec fn nominal_gbat(template: u8, at: [i8; 8]) -> bool {
    if template == 0 {
        at[0] == 3 && at[1] == -1 && at[2] == -3 && at[3] == -1 && at[4] == 2 && at[5] == -2 && at[6] == -2
            && at[7] == -2
    } else if template == 1 {
        at[0] == 3 && at[1] == -1
    } else {
        at[0] == 2 && at[1] == -1
    }
}

/// With the nominal adaptive pixels, the line-buffer context of the fast path is the
/// context of the template's figure: both paths read the same pixels into the same bits.
pub proof fn law_nominal_context(template: u8, w: int, h: int, s: int, d: Seq<u8>, at: [i8; 8], x: int, y: int)
    requires
        template <= 3,
        nominal_gbat(template, at),
    ensures
        nominal_context(template, w, h, s, d, x, y) == gb_context(template, w, h, s, d, at, x, y),
{
}

/// The context used at (x, y): the line-buffer order when `nominal`, the pixel-by-pixel
/// order otherwise.
pub open spec fn row_context(nominal: bool, template: u8, w: int, h: int, s: int, d: Seq<u8>, at: [i8; 8], x: int, y: int) -> u32 {
    if nominal {
        nominal_context(template, w, h, s, d, x, y)
    } else {
        gb_context(template, w, h, s, d, at, x, y)
    }
}

/// The context of `template` at (x, y); 0 for an undefined template.
pub open spec fn gb_context(template: u8, w: int, h: int, s: int, d: Seq<u8>, at: [i8; 8], x: int, y: int) -> u32 {
    if template == 0 {
        ctx_t0(w, h, s, d, at, x, y)
    } else if template == 1 {
        ctx_t1(w, h, s, d, at, x, y)
    } else if template == 2 {
        ctx_t2(w, h, s, d, at, x, y)
    } else if template == 3 {
        ctx_t3(w, h, s, d, at, x, y)
    } else {
        0
    }
}

/// Decoder state, contexts and bitmap data while a region is decoded.
pub struct RegionState {
    pub regs: ArithRegs,
    pub stats: Seq<u8>,
    pub data: Seq<u8>,
}

/// Decode one bit with context `cx` of the context table; `None` when that context
/// names no state of the coder.
pub open spec fn step_bit(d: Seq<u8>, st: RegionState, cx: int) -> Option<(RegionState, u8)> {
    match spec_decode(d, st.regs, st.stats[cx]) {
        None => None,
        Some((r, c, b)) => Some((RegionState { regs: r, stats: st.stats.update(cx, c), data: st.data }, b)),
    }
}

/// Decode pixels x, x+1, ... of row y of a `w` x `h` region (6.2.5.7, step 3c).
pub open spec fn gb_row_from(
    d: Seq<u8>,
    st: RegionState,
    nominal: bool,
    template: u8,
    at: [i8; 8],
    w: int,
    h: int,
    s: int,
    y: int,
    x: int,
) -> Option<RegionState>
    decreases w - x,
{
    if x >= w {
        Some(st)
    } else {
        match step_bit(d, st, row_context(nominal, template, w, h, s, st.data, at, x, y) as int) {
            None => None,
            Some((st2, b)) => gb_row_from(
                d,
                RegionState { data: set_pixel_data(s, st2.data, x, y, b), ..st2 },
                nominal,
                template,
                at,
                w,
                h,
                s,
                y,
                x + 1,
            ),
        }
    }
}

/// Decode rows y, y+1, ... of a region without typical prediction.
pub open spec fn gb_rows_from(
    d: Seq<u8>,
    st: RegionState,
    template: u8,
    at: [i8; 8],
    w: int,
    h: int,
    s: int,
    y: int,
) -> Option<RegionState>
    decreases h - y,
{
    if y >= h {
        Some(st)
    } else {
        match gb_row_from(d, st, false, template, at, w, h, s, y, 0) {
            None => None,
            Some(st2) => gb_rows_from(d, st2, template, at, w, h, s, y + 1),
        }
    }
}

/// Context that codes the typical-prediction bit SLTP for each template (6.2.5.7).
pub open spec fn tpgd_context(template: u8) -> int {
    if template == 0 {
        0x9B25
    } else if template == 1 {
        0x0795
    } else if template == 2 {
        0xE5
    } else {
        0x0195
    }
}

/// The bitmap data with row y replaced by row y - 1 (by zeros for row 0).
pub open spec fn copy_row_data(s: int, data: Seq<u8>, y: int) -> Seq<u8> {
    Seq::new(
        data.len(),
        |i: int|
            if y * s <= i < y * s + s {
                if y == 0 {
                    0u8
                } else {
                    data[i - s]
                }
            } else {
                data[i]
            },
    )
}

/// Decode rows y, y+1, ... with typical prediction: each row starts with the bit SLTP,
/// which toggles LTP; a row with LTP = 1 repeats the row above (6.2.5.7, step 3b).
pub open spec fn tpgd_rows_from(
    d: Seq<u8>,
    st: RegionState,
    ltp: u8,
    template: u8,
    at: [i8; 8],
    w: int,
    h: int,
    s: int,
    y: int,
) -> Option<RegionState>
    decreases h - y,
{
    if y >= h {
        Some(st)
    } else {
        match step_bit(d, st, tpgd_context(template)) {
            None => None,
            Some((st1, b)) => {
                let ltp2 = ltp ^ b;
                if ltp2 != 0 {
                    tpgd_rows_from(
                        d,
                        RegionState { data: copy_row_data(s, st1.data, y), ..st1 },
                        ltp2,
                        template,
                        at,
                        w,
                        h,
                        s,
                        y + 1,
                    )
                } else {
                    match gb_row_from(d, st1, false, template, at, w, h, s, y, 0) {
                        None => None,
                        Some(st2) => tpgd_rows_from(d, st2, ltp2, template, at, w, h, s, y + 1),
                    }
                }
            },
        }
    }
}

/// A row that typical prediction copies holds the pixels of the row above (of a white
/// row for the first row), and the other rows are kept.
pub proof fn law_copy_row(w: int, h: int, s: int, d: Seq<u8>, y: int)
    requires
        s == stride_of(w),
        d.len() == s * h,
        0 <= y < h,
    ensures
        forall|x: int, yy: int|
            #[trigger] pixel_in(w, h, s, copy_row_data(s, d, y), x, yy) == if yy == y && 0 <= x < w {
                if y == 0 {
                    0u8
                } else {
                    pixel_in(w, h, s, d, x, y - 1)
                }
            } else {
                pixel_in(w, h, s, d, x, yy)
            },
{
    let c = copy_row_data(s, d, y);
    assert forall|x: int, yy: int|
        #[trigger] pixel_in(w, h, s, c, x, yy) == if yy == y && 0 <= x < w {
            if y == 0 {
                0u8
            } else {
                pixel_in(w, h, s, d, x, y - 1)
            }
        } else {
            pixel_in(w, h, s, d, x, yy)
        } by {
        if 0 <= x < w && 0 <= yy < h {
            lemma_pixel_index(x, yy, w, h, s);
            let i = byte_pos(s, x, yy);
            if yy == y {
                if y == 0 {
                    crate::image::lemma_fill_bits(x % 8);
                } else {
                    lemma_pixel_index(x, y - 1, w, h, s);
                    assert(i - s == byte_pos(s, x, y - 1)) by (nonlinear_arith)
                        requires
                            i == yy * s + x / 8,
                            yy == y,
                    ;
                }
            } else {
                lemma_pixel_index(0, y, w, h, s);
                if y * s <= i < y * s + s {
                    lemma_index_unique(yy, x / 8, y, i - y * s, s);
                }
            }
        }
    }
}

/// Typical prediction (6.2.5.7, step 3b): LTP is the parity of the SLTP bits decoded so
/// far. An SLTP bit of 0 keeps LTP, an SLTP bit of 1 flips it; the row copies the row
/// above when the new LTP is 1 and is decoded pixel by pixel when it is 0, and the rows
/// after go on with the new LTP.
pub proof fn law_tpgd_ltp(
    d: Seq<u8>,
    st: RegionState,
    ltp: u8,
    template: u8,
    at: [i8; 8],
    w: int,
    h: int,
    s: int,
    y: int,
)
    requires
        ltp <= 1,
        template <= 3,
        ctx_valid(st.stats),
        st.stats.len() >= spec_stats_size(template),
        0 <= y < h,
    ensures
        step_bit(d, st, tpgd_context(template)) matches Some((st1, sltp)) && {
            let next: u8 = if sltp == 0 { ltp } else { (1 - ltp) as u8 };
            tpgd_rows_from(d, st, ltp, template, at, w, h, s, y) == if next == 1 {
                tpgd_rows_from(d, RegionState { data: copy_row_data(s, st1.data, y), ..st1 }, 1, template, at, w, h, s, y + 1)
            } else {
                match gb_row_from(d, st1, false, template, at, w, h, s, y, 0) {
                    None => None,
                    Some(st2) => tpgd_rows_from(d, st2, 0, template, at, w, h, s, y + 1),
                }
            }
        },
{
    lemma_step_bit_ok(d, st, tpgd_context(template));
    let (st1, b) = step_bit(d, st, tpgd_context(template)).unwrap();
    crate::image::lemma_compose_bit_range(ComposeOp::Or, ltp, b);
}

/// Mask that keeps the bits of byte `j` of a row that hold pixels of a `w`-pixel row.
pub open spec fn row_byte_mask(w: int, j: int) -> u8 {
    let n = w - 8 * j;
    if n >= 8 {
        0xFFu8
    } else if n <= 0 {
        0u8
    } else {
        0xFFu8 << ((8 - n) as u8)
    }
}

/// The bitmap data with the padding bits of row `y` cleared.
pub open spec fn clear_row_padding(w: int, s: int, data: Seq<u8>, y: int) -> Seq<u8> {
    Seq::new(
        data.len(),
        |i: int| if y * s <= i < y * s + s { data[i] & row_byte_mask(w, i - y * s) } else { data[i] },
    )
}

/// Decode rows y, y+1, ... with the nominal adaptive pixels in the line-buffer bit order;
/// each decoded row ends with white padding.
pub open spec fn nominal_rows_from(
    d: Seq<u8>,
    st: RegionState,
    template: u8,
    at: [i8; 8],
    w: int,
    h: int,
    s: int,
    y: int,
) -> Option<RegionState>
    decreases h - y,
{
    if y >= h {
        Some(st)
    } else {
        match gb_row_from(d, st, true, template, at, w, h, s, y, 0) {
            None => None,
            Some(st2) => nominal_rows_from(
                d,
                RegionState { data: clear_row_padding(w, s, st2.data, y), ..st2 },
                template,
                at,
                w,
                h,
                s,
                y + 1,
            ),
        }
    }
}

/// The result of the generic region decoding procedure (6.2.5.7) on a `w` x `h` bitmap
/// stored in `data`; `None` when decoding fails.
pub open spec fn spec_generic_region(
    d: Seq<u8>,
    regs: ArithRegs,
    stats: Seq<u8>,
    data: Seq<u8>,
    p: GenericRegionParams,
    w: int,
    h: int,
    s: int,
) -> Option<RegionState> {
    let st = RegionState { regs, stats, data };
    if p.tpgdon {
        tpgd_rows_from(d, st, 0, p.gb_template, p.gbat, w, h, s, 0)
    } else if p.gb_template > 3 {
        None
    } else if !p.use_skip && nominal_gbat(p.gb_template, p.gbat) {
        nominal_rows_from(d, st, p.gb_template, p.gbat, w, h, s, 0)
    } else {
        gb_rows_from(d, st, p.gb_template, p.gbat, w, h, s, 0)
    }
}

/// The bitmaps `d1` and `d2` of a `w` x `h` region with rows of `s` bytes have the same
/// pixels (their row padding may differ).
pub open spec fn same_pixels(w: int, h: int, s: int, d1: Seq<u8>, d2: Seq<u8>) -> bool {
    forall|x: int, y: int| #[trigger] pixel_in(w, h, s, d1, x, y) == pixel_in(w, h, s, d2, x, y)
}

/// Setting pixel (x, y) changes that pixel alone.
proof fn lemma_set_pixel_pixels(w: int, h: int, s: int, d: Seq<u8>, x: int, y: int, b: u8)
    requires
        s == stride_of(w),
        d.len() == s * h,
        0 <= x < w,
        0 <= y < h,
    ensures
        set_pixel_data(s, d, x, y, b).len() == d.len(),
        forall|px: int, py: int|
            #[trigger] pixel_in(w, h, s, set_pixel_data(s, d, x, y, b), px, py) == if px == x && py == y {
                if b != 0 { 1u8 } else { 0u8 }
            } else {
                pixel_in(w, h, s, d, px, py)
            },
{
    lemma_pixel_index(x, y, w, h, s);
    let c = d[byte_pos(s, x, y)];
    assert forall|px: int, py: int|
        #[trigger] pixel_in(w, h, s, set_pixel_data(s, d, x, y, b), px, py) == if px == x && py == y {
            if b != 0 { 1u8 } else { 0u8 }
        } else {
            pixel_in(w, h, s, d, px, py)
        } by {
        if 0 <= px < w && 0 <= py < h {
            lemma_pixel_index(px, py, w, h, s);
            if byte_pos(s, px, py) == byte_pos(s, x, y) {
                lemma_index_unique(py, px / 8, y, x / 8, s);
                lemma_with_bit(c, x % 8, b != 0, px % 8);
            }
        }
    }
}

/// The bits of the row mask that hold pixels are set.
proof fn lemma_row_mask_bit(w: int, j: int, k: int)
    requires
        0 <= k < 8,
        0 <= j,
        8 * j + k < w,
    ensures
        bit_of(row_byte_mask(w, j), k) == 1,
{
    let n = w - 8 * j;
    if n >= 8 {
        crate::image::lemma_fill_bits(k);
    } else {
        let nn = n as u8;
        let t = (7 - k) as u8;
        assert(((0xFFu8 << ((8 - nn) as u8)) >> t) & 1u8 == 1u8) by (bit_vector)
            requires
                0 < nn < 8,
                t < 8,
                7 - t < nn,
        ;
    }
}

/// Clearing the padding of a row keeps every pixel.
proof fn lemma_clear_row_pixels(w: int, h: int, s: int, d: Seq<u8>, y: int)
    requires
        s == stride_of(w),
        d.len() == s * h,
        0 <= y < h,
    ensures
        clear_row_padding(w, s, d, y).len() == d.len(),
        same_pixels(w, h, s, clear_row_padding(w, s, d, y), d),
{
    let c = clear_row_padding(w, s, d, y);
    assert forall|px: int, py: int| #[trigger] pixel_in(w, h, s, c, px, py) == pixel_in(w, h, s, d, px, py) by {
        if 0 <= px < w && 0 <= py < h {
            lemma_pixel_index(px, py, w, h, s);
            let i = byte_pos(s, px, py);
            if y * s <= i < y * s + s {
                lemma_pixel_index(0, y, w, h, s);
                lemma_index_unique(py, px / 8, y, i - y * s, s);
                crate::mmr::lemma_bit_and(d[i], row_byte_mask(w, px / 8), px % 8);
                lemma_row_mask_bit(w, px / 8, px % 8);
            }
        }
    }
}

/// Bitmaps with the same pixels give the same template contexts.
proof fn lemma_context_same_pixels(template: u8, w: int, h: int, s: int, d1: Seq<u8>, d2: Seq<u8>, at: [i8; 8], x: int, y: int)
    requires
        same_pixels(w, h, s, d1, d2),
    ensures
        gb_context(template, w, h, s, d1, at, x, y) == gb_context(template, w, h, s, d2, at, x, y),
{
    assert forall|dx: int, dy: int| #[trigger] pix(w, h, s, d1, x, y, dx, dy) == pix(w, h, s, d2, x, y, dx, dy) by {
        let px = ((x + dx) as u32) as int;
        let py = ((y + dy) as u32) as int;
        assert(pixel_in(w, h, s, d1, px, py) == pixel_in(w, h, s, d2, px, py));
    }
}

/// One row on the fast path and on the general path, from states that agree but for row
/// padding, end in states that agree but for row padding.
proof fn lemma_fast_row(d: Seq<u8>, st1: RegionState, st2: RegionState, template: u8, at: [i8; 8], w: int, h: int, s: int, y: int, x: int)
    requires
        template <= 3,
        nominal_gbat(template, at),
        s == stride_of(w),
        st1.regs == st2.regs,
        st1.stats == st2.stats,
        st1.data.len() == s * h,
        st2.data.len() == s * h,
        same_pixels(w, h, s, st1.data, st2.data),
        0 <= y < h,
        0 <= x,
    ensures
        match (gb_row_from(d, st1, true, template, at, w, h, s, y, x), gb_row_from(d, st2, false, template, at, w, h, s, y, x)) {
            (None, None) => true,
            (Some(a), Some(b)) => a.regs == b.regs && a.stats == b.stats && a.data.len() == s * h && b.data.len() == s * h
                && same_pixels(w, h, s, a.data, b.data),
            _ => false,
        },
    decreases w - x,
{
    if x < w {
        law_nominal_context(template, w, h, s, st1.data, at, x, y);
        lemma_context_same_pixels(template, w, h, s, st1.data, st2.data, at, x, y);
        let cx = row_context(true, template, w, h, s, st1.data, at, x, y) as int;
        assert(cx == row_context(false, template, w, h, s, st2.data, at, x, y) as int);
        match step_bit(d, st1, cx) {
            None => {},
            Some((a, b)) => {
                let (a2, b2) = step_bit(d, st2, cx).unwrap();
                assert(a2.regs == a.regs && a2.stats == a.stats && b2 == b);
                lemma_set_pixel_pixels(w, h, s, a.data, x, y, b);
                lemma_set_pixel_pixels(w, h, s, a2.data, x, y, b);
                let n1 = RegionState { data: set_pixel_data(s, a.data, x, y, b), ..a };
                let n2 = RegionState { data: set_pixel_data(s, a2.data, x, y, b), ..a2 };
                assert(same_pixels(w, h, s, n1.data, n2.data)) by {
                    assert forall|px: int, py: int| #[trigger] pixel_in(w, h, s, n1.data, px, py) == pixel_in(w, h, s, n2.data, px, py) by {
                        assert(pixel_in(w, h, s, a.data, px, py) == pixel_in(w, h, s, a2.data, px, py));
                    }
                }
                lemma_fast_row(d, n1, n2, template, at, w, h, s, y, x + 1);
            },
        }
    }
}

proof fn lemma_fast_rows(d: Seq<u8>, st1: RegionState, st2: RegionState, template: u8, at: [i8; 8], w: int, h: int, s: int, y: int)
    requires
        template <= 3,
        nominal_gbat(template, at),
        s == stride_of(w),
        st1.regs == st2.regs,
        st1.stats == st2.stats,
        st1.data.len() == s * h,
        st2.data.len() == s * h,
        same_pixels(w, h, s, st1.data, st2.data),
        0 <= y,
    ensures
        match (nominal_rows_from(d, st1, template, at, w, h, s, y), gb_rows_from(d, st2, template, at, w, h, s, y)) {
            (None, None) => true,
            (Some(a), Some(b)) => a.regs == b.regs && a.stats == b.stats && same_pixels(w, h, s, a.data, b.data),
            _ => false,
        },
    decreases h - y,
{
    if y < h {
        lemma_fast_row(d, st1, st2, template, at, w, h, s, y, 0);
        match gb_row_from(d, st1, true, template, at, w, h, s, y, 0) {
            None => {},
            Some(a) => {
                let b = gb_row_from(d, st2, false, template, at, w, h, s, y, 0).unwrap();
                lemma_clear_row_pixels(w, h, s, a.data, y);
                let a2 = RegionState { data: clear_row_padding(w, s, a.data, y), ..a };
                assert(same_pixels(w, h, s, a2.data, b.data)) by {
                    assert forall|px: int, py: int| #[trigger] pixel_in(w, h, s, a2.data, px, py) == pixel_in(w, h, s, b.data, px, py) by {
                        assert(pixel_in(w, h, s, a2.data, px, py) == pixel_in(w, h, s, a.data, px, py));
                        assert(pixel_in(w, h, s, a.data, px, py) == pixel_in(w, h, s, b.data, px, py));
                    }
                }
                lemma_fast_rows(d, a2, b, template, at, w, h, s, y + 1);
            },
        }
    }
}

/// With the nominal adaptive pixels, the fast (line-buffer) path decodes a region as the
/// general path does, pixel by pixel from the contexts of the T.88 figures: both succeed
/// or fail together, and they end with the same decoder, the same contexts and the same
/// pixels (only the padding bits past each row may differ).
pub proof fn law_fast_path_matches(d: Seq<u8>, regs: ArithRegs, stats: Seq<u8>, data: Seq<u8>, p: GenericRegionParams, w: int, h: int, s: int)
    requires
        !p.tpgdon,
        !p.use_skip,
        p.gb_template <= 3,
        nominal_gbat(p.gb_template, p.gbat),
        s == stride_of(w),
        data.len() == s * h,
        0 <= h,
    ensures
        match (
            spec_generic_region(d, regs, stats, data, p, w, h, s),
            spec_generic_region(d, regs, stats, data, GenericRegionParams { use_skip: true, ..p }, w, h, s),
        ) {
            (None, None) => true,
            (Some(a), Some(b)) => a.regs == b.regs && a.stats == b.stats && same_pixels(w, h, s, a.data, b.data),
            _ => false,
        },
{
    let st = RegionState { regs, stats, data };
    lemma_fast_rows(d, st, st, p.gb_template, p.gbat, w, h, s, 0);
}

/// The state of a region decode: the arithmetic decoder, the contexts and the bitmap.
pub open spec fn region_state(as_: &ArithState, stats: &[ArithCx], image: &Jbig2Image) -> RegionState {
    RegionState { regs: as_.regs(), stats: stats@, data: image.data@ }
}

/// Read pixel (x + dx, y + dy), coordinates modulo 2^32.
fn pix_at(image: &Jbig2Image, x: u32, y: u32, dx: i32, dy: i32) -> (v: u32)
    requires
        image.wf(),
    ensures
        v == pix(image.width as int, image.height as int, image.stride as int, image.data@, x as int, y as int, dx as int, dy as int),
        v <= 1,
{
    let px = (x as i64 + dx as i64) as u32;
    let py = (y as i64 + dy as i64) as u32;
    image.get_pixel(px, py) as u32
}

pub proof fn lemma_ctx_bound16(
    a0: u32, a1: u32, a2: u32, a3: u32, a4: u32, a5: u32, a6: u32, a7: u32,
    a8: u32, a9: u32, a10: u32, a11: u32, a12: u32, a13: u32, a14: u32, a15: u32,
)
    by (bit_vector)
    requires
        a0 <= 1, a1 <= 1, a2 <= 1, a3 <= 1, a4 <= 1, a5 <= 1, a6 <= 1, a7 <= 1,
        a8 <= 1, a9 <= 1, a10 <= 1, a11 <= 1, a12 <= 1, a13 <= 1, a14 <= 1, a15 <= 1,
    ensures
        a0 | (a1 << 1u32) | (a2 << 2u32) | (a3 << 3u32) | (a4 << 4u32) | (a5 << 5u32) | (a6 << 6u32) | (a7
            << 7u32) | (a8 << 8u32) | (a9 << 9u32) | (a10 << 10u32) | (a11 << 11u32) | (a12 << 12u32) | (a13
            << 13u32) | (a14 << 14u32) | (a15 << 15u32) < 0x10000,
        a0 | (a1 << 1u32) | (a2 << 2u32) | (a3 << 3u32) | (a4 << 4u32) | (a5 << 5u32) | (a6 << 6u32) | (a7
            << 7u32) | (a8 << 8u32) | (a9 << 9u32) | (a10 << 10u32) | (a11 << 11u32) | (a12 << 12u32) < 0x2000,
        a0 | (a1 << 1u32) | (a2 << 2u32) | (a3 << 3u32) | (a4 << 4u32) | (a5 << 5u32) | (a6 << 6u32) | (a7
            << 7u32) | (a8 << 8u32) | (a9 << 9u32) < 0x400,
{
}

/// A pixel read is 0 or 1.
pub(crate) proof fn lemma_pix_bit(w: int, h: int, s: int, d: Seq<u8>, x: int, y: int, dx: int, dy: int)
    ensures
        pix(w, h, s, d, x, y, dx, dy) <= 1,
{
    let px = ((x + dx) as u32) as int;
    let py = ((y + dy) as u32) as int;
    if 0 <= px < w && 0 <= py < h {
        crate::image::lemma_bit_of_range(d[crate::image::byte_pos(s, px, py)], px % 8);
    }
}

proof fn lemma_ctx_t0_bound(w: int, h: int, s: int, d: Seq<u8>, at: [i8; 8], x: int, y: int)
    ensures
        ctx_t0(w, h, s, d, at, x, y) < 0x10000,
{
    lemma_pix_bit(w, h, s, d, x, y, -1, 0);
    lemma_pix_bit(w, h, s, d, x, y, -2, 0);
    lemma_pix_bit(w, h, s, d, x, y, -3, 0);
    lemma_pix_bit(w, h, s, d, x, y, -4, 0);
    lemma_pix_bit(w, h, s, d, x, y, at[0] as int, at[1] as int);
    lemma_pix_bit(w, h, s, d, x, y, 2, -1);
    lemma_pix_bit(w, h, s, d, x, y, 1, -1);
    lemma_pix_bit(w, h, s, d, x, y, 0, -1);
    lemma_pix_bit(w, h, s, d, x, y, -1, -1);
    lemma_pix_bit(w, h, s, d, x, y, -2, -1);
    lemma_pix_bit(w, h, s, d, x, y, at[2] as int, at[3] as int);
    lemma_pix_bit(w, h, s, d, x, y, at[4] as int, at[5] as int);
    lemma_pix_bit(w, h, s, d, x, y, 1, -2);
    lemma_pix_bit(w, h, s, d, x, y, 0, -2);
    lemma_pix_bit(w, h, s, d, x, y, -1, -2);
    lemma_pix_bit(w, h, s, d, x, y, at[6] as int, at[7] as int);
    lemma_ctx_bound16(
        pix(w, h, s, d, x, y, -1, 0),
        pix(w, h, s, d, x, y, -2, 0),
        pix(w, h, s, d, x, y, -3, 0),
        pix(w, h, s, d, x, y, -4, 0),
        pix(w, h, s, d, x, y, at[0] as int, at[1] as int),
        pix(w, h, s, d, x, y, 2, -1),
        pix(w, h, s, d, x, y, 1, -1),
        pix(w, h, s, d, x, y, 0, -1),
        pix(w, h, s, d, x, y, -1, -1),
        pix(w, h, s, d, x, y, -2, -1),
        pix(w, h, s, d, x, y, at[2] as int, at[3] as int),
        pix(w, h, s, d, x, y, at[4] as int, at[5] as int),
        pix(w, h, s, d, x, y, 1, -2),
        pix(w, h, s, d, x, y, 0, -2),
        pix(w, h, s, d, x, y, -1, -2),
        pix(w, h, s, d, x, y, at[6] as int, at[7] as int),
    );
}

proof fn lemma_ctx_t1_bound(w: int, h: int, s: int, d: Seq<u8>, at: [i8; 8], x: int, y: int)
    ensures
        ctx_t1(w, h, s, d, at, x, y) < 0x2000,
{
    lemma_pix_bit(w, h, s, d, x, y, -1, 0);
    lemma_pix_bit(w, h, s, d, x, y, -2, 0);
    lemma_pix_bit(w, h, s, d, x, y, -3, 0);
    lemma_pix_bit(w, h, s, d, x, y, at[0] as int, at[1] as int);
    lemma_pix_bit(w, h, s, d, x, y, 2, -1);
    lemma_pix_bit(w, h, s, d, x, y, 1, -1);
    lemma_pix_bit(w, h, s, d, x, y, 0, -1);
    lemma_pix_bit(w, h, s, d, x, y, -1, -1);
    lemma_pix_bit(w, h, s, d, x, y, -2, -1);
    lemma_pix_bit(w, h, s, d, x, y, 2, -2);
    lemma_pix_bit(w, h, s, d, x, y, 1, -2);
    lemma_pix_bit(w, h, s, d, x, y, 0, -2);
    lemma_pix_bit(w, h, s, d, x, y, -1, -2);
    lemma_ctx_bound16(
        pix(w, h, s, d, x, y, -1, 0),
        pix(w, h, s, d, x, y, -2, 0),
        pix(w, h, s, d, x, y, -3, 0),
        pix(w, h, s, d, x, y, at[0] as int, at[1] as int),
        pix(w, h, s, d, x, y, 2, -1),
        pix(w, h, s, d, x, y, 1, -1),
        pix(w, h, s, d, x, y, 0, -1),
        pix(w, h, s, d, x, y, -1, -1),
        pix(w, h, s, d, x, y, -2, -1),
        pix(w, h, s, d, x, y, 2, -2),
        pix(w, h, s, d, x, y, 1, -2),
        pix(w, h, s, d, x, y, 0, -2),
        pix(w, h, s, d, x, y, -1, -2),
        0u32,
        0u32,
        0u32,
    );
}

proof fn lemma_ctx_t2_bound(w: int, h: int, s: int, d: Seq<u8>, at: [i8; 8], x: int, y: int)
    ensures
        ctx_t2(w, h, s, d, at, x, y) < 0x400,
{
    lemma_pix_bit(w, h, s, d, x, y, -1, 0);
    lemma_pix_bit(w, h, s, d, x, y, -2, 0);
    lemma_pix_bit(w, h, s, d, x, y, at[0] as int, at[1] as int);
    lemma_pix_bit(w, h, s, d, x, y, 1, -1);
    lemma_pix_bit(w, h, s, d, x, y, 0, -1);
    lemma_pix_bit(w, h, s, d, x, y, -1, -1);
    lemma_pix_bit(w, h, s, d, x, y, -2, -1);
    lemma_pix_bit(w, h, s, d, x, y, 1, -2);
    lemma_pix_bit(w, h, s, d, x, y, 0, -2);
    lemma_pix_bit(w, h, s, d, x, y, -1, -2);
    lemma_ctx_bound16(
        pix(w, h, s, d, x, y, -1, 0),
        pix(w, h, s, d, x, y, -2, 0),
        pix(w, h, s, d, x, y, at[0] as int, at[1] as int),
        pix(w, h, s, d, x, y, 1, -1),
        pix(w, h, s, d, x, y, 0, -1),
        pix(w, h, s, d, x, y, -1, -1),
        pix(w, h, s, d, x, y, -2, -1),
        pix(w, h, s, d, x, y, 1, -2),
        pix(w, h, s, d, x, y, 0, -2),
        pix(w, h, s, d, x, y, -1, -2),
        0u32,
        0u32,
        0u32,
        0u32,
        0u32,
        0u32,
    );
}

proof fn lemma_ctx_t3_bound(w: int, h: int, s: int, d: Seq<u8>, at: [i8; 8], x: int, y: int)
    ensures
        ctx_t3(w, h, s, d, at, x, y) < 0x400,
{
    lemma_pix_bit(w, h, s, d, x, y, -1, 0);
    lemma_pix_bit(w, h, s, d, x, y, -2, 0);
    lemma_pix_bit(w, h, s, d, x, y, -3, 0);
    lemma_pix_bit(w, h, s, d, x, y, -4, 0);
    lemma_pix_bit(w, h, s, d, x, y, at[0] as int, at[1] as int);
    lemma_pix_bit(w, h, s, d, x, y, 1, -1);
    lemma_pix_bit(w, h, s, d, x, y, 0, -1);
    lemma_pix_bit(w, h, s, d, x, y, -1, -1);
    lemma_pix_bit(w, h, s, d, x, y, -2, -1);
    lemma_pix_bit(w, h, s, d, x, y, -3, -1);
    lemma_ctx_bound16(
        pix(w, h, s, d, x, y, -1, 0),
        pix(w, h, s, d, x, y, -2, 0),
        pix(w, h, s, d, x, y, -3, 0),
        pix(w, h, s, d, x, y, -4, 0),
        pix(w, h, s, d, x, y, at[0] as int, at[1] as int),
        pix(w, h, s, d, x, y, 1, -1),
        pix(w, h, s, d, x, y, 0, -1),
        pix(w, h, s, d, x, y, -1, -1),
        pix(w, h, s, d, x, y, -2, -1),
        pix(w, h, s, d, x, y, -3, -1),
        0u32,
        0u32,
        0u32,
        0u32,
        0u32,
        0u32,
    );
}

proof fn lemma_ctx_n0_bound(w: int, h: int, s: int, d: Seq<u8>, x: int, y: int)
    ensures
        ctx_n0(w, h, s, d, x, y) < 0x10000,
{
    lemma_pix_bit(w, h, s, d, x, y, -1, 0);
    lemma_pix_bit(w, h, s, d, x, y, -2, 0);
    lemma_pix_bit(w, h, s, d, x, y, -3, 0);
    lemma_pix_bit(w, h, s, d, x, y, -4, 0);
    lemma_pix_bit(w, h, s, d, x, y, 3, -1);
    lemma_pix_bit(w, h, s, d, x, y, 2, -1);
    lemma_pix_bit(w, h, s, d, x, y, 1, -1);
    lemma_pix_bit(w, h, s, d, x, y, 0, -1);
    lemma_pix_bit(w, h, s, d, x, y, -1, -1);
    lemma_pix_bit(w, h, s, d, x, y, -2, -1);
    lemma_pix_bit(w, h, s, d, x, y, -3, -1);
    lemma_pix_bit(w, h, s, d, x, y, 2, -2);
    lemma_pix_bit(w, h, s, d, x, y, 1, -2);
    lemma_pix_bit(w, h, s, d, x, y, 0, -2);
    lemma_pix_bit(w, h, s, d, x, y, -1, -2);
    lemma_pix_bit(w, h, s, d, x, y, -2, -2);
    lemma_ctx_bound16(
        pix(w, h, s, d, x, y, -1, 0),
        pix(w, h, s, d, x, y, -2, 0),
        pix(w, h, s, d, x, y, -3, 0),
        pix(w, h, s, d, x, y, -4, 0),
        pix(w, h, s, d, x, y, 3, -1),
        pix(w, h, s, d, x, y, 2, -1),
        pix(w, h, s, d, x, y, 1, -1),
        pix(w, h, s, d, x, y, 0, -1),
        pix(w, h, s, d, x, y, -1, -1),
        pix(w, h, s, d, x, y, -2, -1),
        pix(w, h, s, d, x, y, -3, -1),
        pix(w, h, s, d, x, y, 2, -2),
        pix(w, h, s, d, x, y, 1, -2),
        pix(w, h, s, d, x, y, 0, -2),
        pix(w, h, s, d, x, y, -1, -2),
        pix(w, h, s, d, x, y, -2, -2),
    );
}

proof fn lemma_ctx_n1_bound(w: int, h: int, s: int, d: Seq<u8>, x: int, y: int)
    ensures
        ctx_n1(w, h, s, d, x, y) < 0x2000,
{
    lemma_pix_bit(w, h, s, d, x, y, -1, 0);
    lemma_pix_bit(w, h, s, d, x, y, -2, 0);
    lemma_pix_bit(w, h, s, d, x, y, -3, 0);
    lemma_pix_bit(w, h, s, d, x, y, 3, -1);
    lemma_pix_bit(w, h, s, d, x, y, 2, -1);
    lemma_pix_bit(w, h, s, d, x, y, 1, -1);
    lemma_pix_bit(w, h, s, d, x, y, 0, -1);
    lemma_pix_bit(w, h, s, d, x, y, -1, -1);
    lemma_pix_bit(w, h, s, d, x, y, -2, -1);
    lemma_pix_bit(w, h, s, d, x, y, 2, -2);
    lemma_pix_bit(w, h, s, d, x, y, 1, -2);
    lemma_pix_bit(w, h, s, d, x, y, 0, -2);
    lemma_pix_bit(w, h, s, d, x, y, -1, -2);
    lemma_ctx_bound16(
        pix(w, h, s, d, x, y, -1, 0),
        pix(w, h, s, d, x, y, -2, 0),
        pix(w, h, s, d, x, y, -3, 0),
        pix(w, h, s, d, x, y, 3, -1),
        pix(w, h, s, d, x, y, 2, -1),
        pix(w, h, s, d, x, y, 1, -1),
        pix(w, h, s, d, x, y, 0, -1),
        pix(w, h, s, d, x, y, -1, -1),
        pix(w, h, s, d, x, y, -2, -1),
        pix(w, h, s, d, x, y, 2, -2),
        pix(w, h, s, d, x, y, 1, -2),
        pix(w, h, s, d, x, y, 0, -2),
        pix(w, h, s, d, x, y, -1, -2),
        0u32,
        0u32,
        0u32,
    );
}

proof fn lemma_ctx_n2_bound(w: int, h: int, s: int, d: Seq<u8>, x: int, y: int)
    ensures
        ctx_n2(w, h, s, d, x, y) < 0x400,
{
    lemma_pix_bit(w, h, s, d, x, y, -1, 0);
    lemma_pix_bit(w, h, s, d, x, y, -2, 0);
    lemma_pix_bit(w, h, s, d, x, y, 2, -1);
    lemma_pix_bit(w, h, s, d, x, y, 1, -1);
    lemma_pix_bit(w, h, s, d, x, y, 0, -1);
    lemma_pix_bit(w, h, s, d, x, y, -1, -1);
    lemma_pix_bit(w, h, s, d, x, y, -2, -1);
    lemma_pix_bit(w, h, s, d, x, y, 1, -2);
    lemma_pix_bit(w, h, s, d, x, y, 0, -2);
    lemma_pix_bit(w, h, s, d, x, y, -1, -2);
    lemma_ctx_bound16(
        pix(w, h, s, d, x, y, -1, 0),
        pix(w, h, s, d, x, y, -2, 0),
        pix(w, h, s, d, x, y, 2, -1),
        pix(w, h, s, d, x, y, 1, -1),
        pix(w, h, s, d, x, y, 0, -1),
        pix(w, h, s, d, x, y, -1, -1),
        pix(w, h, s, d, x, y, -2, -1),
        pix(w, h, s, d, x, y, 1, -2),
        pix(w, h, s, d, x, y, 0, -2),
        pix(w, h, s, d, x, y, -1, -2),
        0u32,
        0u32,
        0u32,
        0u32,
        0u32,
        0u32,
    );
}

proof fn lemma_ctx_n3_bound(w: int, h: int, s: int, d: Seq<u8>, x: int, y: int)
    ensures
        ctx_n3(w, h, s, d, x, y) < 0x400,
{
    lemma_pix_bit(w, h, s, d, x, y, -1, 0);
    lemma_pix_bit(w, h, s, d, x, y, -2, 0);
    lemma_pix_bit(w, h, s, d, x, y, -3, 0);
    lemma_pix_bit(w, h, s, d, x, y, -4, 0);
    lemma_pix_bit(w, h, s, d, x, y, 2, -1);
    lemma_pix_bit(w, h, s, d, x, y, 1, -1);
    lemma_pix_bit(w, h, s, d, x, y, 0, -1);
    lemma_pix_bit(w, h, s, d, x, y, -1, -1);
    lemma_pix_bit(w, h, s, d, x, y, -2, -1);
    lemma_pix_bit(w, h, s, d, x, y, -3, -1);
    lemma_ctx_bound16(
        pix(w, h, s, d, x, y, -1, 0),
        pix(w, h, s, d, x, y, -2, 0),
        pix(w, h, s, d, x, y, -3, 0),
        pix(w, h, s, d, x, y, -4, 0),
        pix(w, h, s, d, x, y, 2, -1),
        pix(w, h, s, d, x, y, 1, -1),
        pix(w, h, s, d, x, y, 0, -1),
        pix(w, h, s, d, x, y, -1, -1),
        pix(w, h, s, d, x, y, -2, -1),
        pix(w, h, s, d, x, y, -3, -1),
        0u32,
        0u32,
        0u32,
        0u32,
        0u32,
        0u32,
    );
}

/// Every context of the table names a state of the coder (Table E.1).
pub open spec fn ctx_valid(stats: Seq<u8>) -> bool {
    forall|i: int| 0 <= i < stats.len() ==> (#[trigger] stats[i] & 0x7F) < 47
}

/// The context of a defined template lies in its table.
proof fn lemma_row_context_bound(nominal: bool, template: u8, w: int, h: int, s: int, d: Seq<u8>, at: [i8; 8], x: int, y: int)
    requires
        template <= 3,
    ensures
        row_context(nominal, template, w, h, s, d, at, x, y) < spec_stats_size(template),
{
    if template == 0 {
        lemma_ctx_t0_bound(w, h, s, d, at, x, y);
        lemma_ctx_n0_bound(w, h, s, d, x, y);
    } else if template == 1 {
        lemma_ctx_t1_bound(w, h, s, d, at, x, y);
        lemma_ctx_n1_bound(w, h, s, d, x, y);
    } else if template == 2 {
        lemma_ctx_t2_bound(w, h, s, d, at, x, y);
        lemma_ctx_n2_bound(w, h, s, d, x, y);
    } else {
        lemma_ctx_t3_bound(w, h, s, d, at, x, y);
        lemma_ctx_n3_bound(w, h, s, d, x, y);
    }
}

/// Decoding a bit with a context of a valid table succeeds and keeps the table valid.
pub(crate) proof fn lemma_step_bit_ok(d: Seq<u8>, st: RegionState, cx: int)
    requires
        ctx_valid(st.stats),
        0 <= cx < st.stats.len(),
    ensures
        step_bit(d, st, cx) matches Some((st2, b)) && ctx_valid(st2.stats) && st2.stats.len() == st.stats.len() && b <= 1,
{
    crate::arith::lemma_decode_keeps_ctx_valid(d, st.regs, st.stats[cx]);
    let (r, c, b) = spec_decode(d, st.regs, st.stats[cx]).unwrap();
    let s2 = st.stats.update(cx, c);
    assert forall|i: int| 0 <= i < s2.len() implies (#[trigger] s2[i] & 0x7F) < 47 by {
        if i != cx {
            assert(s2[i] == st.stats[i]);
        }
    }
}

proof fn lemma_gb_row_ok(d: Seq<u8>, st: RegionState, nominal: bool, template: u8, at: [i8; 8], w: int, h: int, s: int, y: int, x: int)
    requires
        template <= 3,
        ctx_valid(st.stats),
        st.stats.len() >= spec_stats_size(template),
    ensures
        gb_row_from(d, st, nominal, template, at, w, h, s, y, x) matches Some(r) && ctx_valid(r.stats)
            && r.stats.len() == st.stats.len(),
    decreases w - x,
{
    if x < w {
        let cx = row_context(nominal, template, w, h, s, st.data, at, x, y) as int;
        lemma_row_context_bound(nominal, template, w, h, s, st.data, at, x, y);
        lemma_step_bit_ok(d, st, cx);
        let (st2, b) = step_bit(d, st, cx).unwrap();
        lemma_gb_row_ok(d, RegionState { data: set_pixel_data(s, st2.data, x, y, b), ..st2 }, nominal, template, at, w, h, s, y, x + 1);
    }
}

proof fn lemma_gb_rows_ok(d: Seq<u8>, st: RegionState, template: u8, at: [i8; 8], w: int, h: int, s: int, y: int)
    requires
        template <= 3,
        ctx_valid(st.stats),
        st.stats.len() >= spec_stats_size(template),
    ensures
        gb_rows_from(d, st, template, at, w, h, s, y) is Some,
    decreases h - y,
{
    if y < h {
        lemma_gb_row_ok(d, st, false, template, at, w, h, s, y, 0);
        let st2 = gb_row_from(d, st, false, template, at, w, h, s, y, 0).unwrap();
        lemma_gb_rows_ok(d, st2, template, at, w, h, s, y + 1);
    }
}

proof fn lemma_nominal_rows_ok(d: Seq<u8>, st: RegionState, template: u8, at: [i8; 8], w: int, h: int, s: int, y: int)
    requires
        template <= 3,
        ctx_valid(st.stats),
        st.stats.len() >= spec_stats_size(template),
    ensures
        nominal_rows_from(d, st, template, at, w, h, s, y) is Some,
    decreases h - y,
{
    if y < h {
        lemma_gb_row_ok(d, st, true, template, at, w, h, s, y, 0);
        let st2 = gb_row_from(d, st, true, template, at, w, h, s, y, 0).unwrap();
        lemma_nominal_rows_ok(d, RegionState { data: clear_row_padding(w, s, st2.data, y), ..st2 }, template, at, w, h, s, y + 1);
    }
}

proof fn lemma_tpgd_rows_ok(d: Seq<u8>, st: RegionState, ltp: u8, template: u8, at: [i8; 8], w: int, h: int, s: int, y: int)
    requires
        template <= 3,
        ctx_valid(st.stats),
        st.stats.len() >= spec_stats_size(template),
    ensures
        tpgd_rows_from(d, st, ltp, template, at, w, h, s, y) is Some,
    decreases h - y,
{
    if y < h {
        lemma_step_bit_ok(d, st, tpgd_context(template));
        let (st1, b) = step_bit(d, st, tpgd_context(template)).unwrap();
        let ltp2 = ltp ^ b;
        if ltp2 != 0 {
            lemma_tpgd_rows_ok(d, RegionState { data: copy_row_data(s, st1.data, y), ..st1 }, ltp2, template, at, w, h, s, y + 1);
        } else {
            lemma_gb_row_ok(d, st1, false, template, at, w, h, s, y, 0);
            let st2 = gb_row_from(d, st1, false, template, at, w, h, s, y, 0).unwrap();
            lemma_tpgd_rows_ok(d, st2, ltp2, template, at, w, h, s, y + 1);
        }
    }
}

/// Generic region decoding with a defined template never fails when every context of
/// the table names a state of the coder, as a fresh (all-zero) table does.
pub proof fn law_generic_region_succeeds(
    d: Seq<u8>,
    regs: ArithRegs,
    stats: Seq<u8>,
    data: Seq<u8>,
    p: GenericRegionParams,
    w: int,
    h: int,
    s: int,
)
    requires
        p.gb_template <= 3,
        ctx_valid(stats),
        stats.len() >= spec_stats_size(p.gb_template),
    ensures
        spec_generic_region(d, regs, stats, data, p, w, h, s) is Some,
{
    let st = RegionState { regs, stats, data };
    if p.tpgdon {
        lemma_tpgd_rows_ok(d, st, 0, p.gb_template, p.gbat, w, h, s, 0);
    } else if !p.use_skip && nominal_gbat(p.gb_template, p.gbat) {
        lemma_nominal_rows_ok(d, st, p.gb_template, p.gbat, w, h, s, 0);
    } else {
        lemma_gb_rows_ok(d, st, p.gb_template, p.gbat, w, h, s, 0);
    }
}

/// Context of template 0 at (x, y).
fn build_context_t0(image: &Jbig2Image, params: &GenericRegionParams, x: u32, y: u32) -> (c: u32)
    requires
        image.wf(),
    ensures
        c == ctx_t0(image.width as int, image.height as int, image.stride as int, image.data@, params.gbat, x as int, y as int),
        c < 0x10000,
{
    let at = params.gbat;
    let p0 = pix_at(image, x, y, -1, 0);
    let p1 = pix_at(image, x, y, -2, 0);
    let p2 = pix_at(image, x, y, -3, 0);
    let p3 = pix_at(image, x, y, -4, 0);
    let p4 = pix_at(image, x, y, at[0] as i32, at[1] as i32);
    let p5 = pix_at(image, x, y, 2, -1);
    let p6 = pix_at(image, x, y, 1, -1);
    let p7 = pix_at(image, x, y, 0, -1);
    let p8 = pix_at(image, x, y, -1, -1);
    let p9 = pix_at(image, x, y, -2, -1);
    let p10 = pix_at(image, x, y, at[2] as i32, at[3] as i32);
    let p11 = pix_at(image, x, y, at[4] as i32, at[5] as i32);
    let p12 = pix_at(image, x, y, 1, -2);
    let p13 = pix_at(image, x, y, 0, -2);
    let p14 = pix_at(image, x, y, -1, -2);
    let p15 = pix_at(image, x, y, at[6] as i32, at[7] as i32);
    proof {
        lemma_ctx_bound16(p0, p1, p2, p3, p4, p5, p6, p7, p8, p9, p10, p11, p12, p13, p14, p15);
    }
    p0 | (p1 << 1u32) | (p2 << 2u32) | (p3 << 3u32) | (p4 << 4u32) | (p5 << 5u32) | (p6 << 6u32) | (p7 << 7u32)
        | (p8 << 8u32) | (p9 << 9u32) | (p10 << 10u32) | (p11 << 11u32) | (p12 << 12u32) | (p13 << 13u32) | (p14
        << 14u32) | (p15 << 15u32)
}

/// Context of template 1 at (x, y).
fn build_context_t1(image: &Jbig2Image, params: &GenericRegionParams, x: u32, y: u32) -> (c: u32)
    requires
        image.wf(),
    ensures
        c == ctx_t1(image.width as int, image.height as int, image.stride as int, image.data@, params.gbat, x as int, y as int),
        c < 0x2000,
{
    let at = params.gbat;
    let p0 = pix_at(image, x, y, -1, 0);
    let p1 = pix_at(image, x, y, -2, 0);
    let p2 = pix_at(image, x, y, -3, 0);
    let p3 = pix_at(image, x, y, at[0] as i32, at[1] as i32);
    let p4 = pix_at(image, x, y, 2, -1);
    let p5 = pix_at(image, x, y, 1, -1);
    let p6 = pix_at(image, x, y, 0, -1);
    let p7 = pix_at(image, x, y, -1, -1);
    let p8 = pix_at(image, x, y, -2, -1);
    let p9 = pix_at(image, x, y, 2, -2);
    let p10 = pix_at(image, x, y, 1, -2);
    let p11 = pix_at(image, x, y, 0, -2);
    let p12 = pix_at(image, x, y, -1, -2);
    proof {
        lemma_ctx_bound16(p0, p1, p2, p3, p4, p5, p6, p7, p8, p9, p10, p11, p12, 0, 0, 0);
    }
    p0 | (p1 << 1u32) | (p2 << 2u32) | (p3 << 3u32) | (p4 << 4u32) | (p5 << 5u32) | (p6 << 6u32) | (p7 << 7u32)
        | (p8 << 8u32) | (p9 << 9u32) | (p10 << 10u32) | (p11 << 11u32) | (p12 << 12u32)
}

/// Context of template 2 at (x, y).
fn build_context_t2(image: &Jbig2Image, params: &GenericRegionParams, x: u32, y: u32) -> (c: u32)
    requires
        image.wf(),
    ensures
        c == ctx_t2(image.width as int, image.height as int, image.stride as int, image.data@, params.gbat, x as int, y as int),
        c < 0x400,
{
    let at = params.gbat;
    let p0 = pix_at(image, x, y, -1, 0);
    let p1 = pix_at(image, x, y, -2, 0);
    let p2 = pix_at(image, x, y, at[0] as i32, at[1] as i32);
    let p3 = pix_at(image, x, y, 1, -1);
    let p4 = pix_at(image, x, y, 0, -1);
    let p5 = pix_at(image, x, y, -1, -1);
    let p6 = pix_at(image, x, y, -2, -1);
    let p7 = pix_at(image, x, y, 1, -2);
    let p8 = pix_at(image, x, y, 0, -2);
    let p9 = pix_at(image, x, y, -1, -2);
    proof {
        lemma_ctx_bound16(p0, p1, p2, p3, p4, p5, p6, p7, p8, p9, 0, 0, 0, 0, 0, 0);
    }
    p0 | (p1 << 1u32) | (p2 << 2u32) | (p3 << 3u32) | (p4 << 4u32) | (p5 << 5u32) | (p6 << 6u32) | (p7 << 7u32)
        | (p8 << 8u32) | (p9 << 9u32)
}

/// Context of template 3 at (x, y).
fn build_context_t3(image: &Jbig2Image, params: &GenericRegionParams, x: u32, y: u32) -> (c: u32)
    requires
        image.wf(),
    ensures
        c == ctx_t3(image.width as int, image.height as int, image.stride as int, image.data@, params.gbat, x as int, y as int),
        c < 0x400,
{
    let at = params.gbat;
    let p0 = pix_at(image, x, y, -1, 0);
    let p1 = pix_at(image, x, y, -2, 0);
    let p2 = pix_at(image, x, y, -3, 0);
    let p3 = pix_at(image, x, y, -4, 0);
    let p4 = pix_at(image, x, y, at[0] as i32, at[1] as i32);
    let p5 = pix_at(image, x, y, 1, -1);
    let p6 = pix_at(image, x, y, 0, -1);
    let p7 = pix_at(image, x, y, -1, -1);
    let p8 = pix_at(image, x, y, -2, -1);
    let p9 = pix_at(image, x, y, -3, -1);
    proof {
        lemma_ctx_bound16(p0, p1, p2, p3, p4, p5, p6, p7, p8, p9, 0, 0, 0, 0, 0, 0);
    }
    p0 | (p1 << 1u32) | (p2 << 2u32) | (p3 << 3u32) | (p4 << 4u32) | (p5 << 5u32) | (p6 << 6u32) | (p7 << 7u32)
        | (p8 << 8u32) | (p9 << 9u32)
}

/// Line-buffer-order context of template 0 at (x, y).
fn build_context_n0(image: &Jbig2Image, x: u32, y: u32) -> (c: u32)
    requires
        image.wf(),
    ensures
        c == ctx_n0(image.width as int, image.height as int, image.stride as int, image.data@, x as int, y as int),
        c < 0x10000,
{
    let p0 = pix_at(image, x, y, -1, 0);
    let p1 = pix_at(image, x, y, -2, 0);
    let p2 = pix_at(image, x, y, -3, 0);
    let p3 = pix_at(image, x, y, -4, 0);
    let p4 = pix_at(image, x, y, 3, -1);
    let p5 = pix_at(image, x, y, 2, -1);
    let p6 = pix_at(image, x, y, 1, -1);
    let p7 = pix_at(image, x, y, 0, -1);
    let p8 = pix_at(image, x, y, -1, -1);
    let p9 = pix_at(image, x, y, -2, -1);
    let p10 = pix_at(image, x, y, -3, -1);
    let p11 = pix_at(image, x, y, 2, -2);
    let p12 = pix_at(image, x, y, 1, -2);
    let p13 = pix_at(image, x, y, 0, -2);
    let p14 = pix_at(image, x, y, -1, -2);
    let p15 = pix_at(image, x, y, -2, -2);
    proof {
        lemma_ctx_bound16(p0, p1, p2, p3, p4, p5, p6, p7, p8, p9, p10, p11, p12, p13, p14, p15);
    }
    p0 | (p1 << 1u32) | (p2 << 2u32) | (p3 << 3u32) | (p4 << 4u32) | (p5 << 5u32) | (p6 << 6u32) | (p7 << 7u32)
        | (p8 << 8u32) | (p9 << 9u32) | (p10 << 10u32) | (p11 << 11u32) | (p12 << 12u32) | (p13 << 13u32) | (p14
        << 14u32) | (p15 << 15u32)
}

/// Line-buffer-order context of template 1 at (x, y).
fn build_context_n1(image: &Jbig2Image, x: u32, y: u32) -> (c: u32)
    requires
        image.wf(),
    ensures
        c == ctx_n1(image.width as int, image.height as int, image.stride as int, image.data@, x as int, y as int),
        c < 0x2000,
{
    let p0 = pix_at(image, x, y, -1, 0);
    let p1 = pix_at(image, x, y, -2, 0);
    let p2 = pix_at(image, x, y, -3, 0);
    let p3 = pix_at(image, x, y, 3, -1);
    let p4 = pix_at(image, x, y, 2, -1);
    let p5 = pix_at(image, x, y, 1, -1);
    let p6 = pix_at(image, x, y, 0, -1);
    let p7 = pix_at(image, x, y, -1, -1);
    let p8 = pix_at(image, x, y, -2, -1);
    let p9 = pix_at(image, x, y, 2, -2);
    let p10 = pix_at(image, x, y, 1, -2);
    let p11 = pix_at(image, x, y, 0, -2);
    let p12 = pix_at(image, x, y, -1, -2);
    proof {
        lemma_ctx_bound16(p0, p1, p2, p3, p4, p5, p6, p7, p8, p9, p10, p11, p12, 0, 0, 0);
    }
    p0 | (p1 << 1u32) | (p2 << 2u32) | (p3 << 3u32) | (p4 << 4u32) | (p5 << 5u32) | (p6 << 6u32) | (p7 << 7u32)
        | (p8 << 8u32) | (p9 << 9u32) | (p10 << 10u32) | (p11 << 11u32) | (p12 << 12u32)
}

/// Line-buffer-order context of template 2 at (x, y).
fn build_context_n2(image: &Jbig2Image, x: u32, y: u32) -> (c: u32)
    requires
        image.wf(),
    ensures
        c == ctx_n2(image.width as int, image.height as int, image.stride as int, image.data@, x as int, y as int),
        c < 0x400,
{
    let p0 = pix_at(image, x, y, -1, 0);
    let p1 = pix_at(image, x, y, -2, 0);
    let p2 = pix_at(image, x, y, 2, -1);
    let p3 = pix_at(image, x, y, 1, -1);
    let p4 = pix_at(image, x, y, 0, -1);
    let p5 = pix_at(image, x, y, -1, -1);
    let p6 = pix_at(image, x, y, -2, -1);
    let p7 = pix_at(image, x, y, 1, -2);
    let p8 = pix_at(image, x, y, 0, -2);
    let p9 = pix_at(image, x, y, -1, -2);
    proof {
        lemma_ctx_bound16(p0, p1, p2, p3, p4, p5, p6, p7, p8, p9, 0, 0, 0, 0, 0, 0);
    }
    p0 | (p1 << 1u32) | (p2 << 2u32) | (p3 << 3u32) | (p4 << 4u32) | (p5 << 5u32) | (p6 << 6u32) | (p7 << 7u32)
        | (p8 << 8u32) | (p9 << 9u32)
}

/// Line-buffer-order context of template 3 at (x, y).
fn build_context_n3(image: &Jbig2Image, x: u32, y: u32) -> (c: u32)
    requires
        image.wf(),
    ensures
        c == ctx_n3(image.width as int, image.height as int, image.stride as int, image.data@, x as int, y as int),
        c < 0x400,
{
    let p0 = pix_at(image, x, y, -1, 0);
    let p1 = pix_at(image, x, y, -2, 0);
    let p2 = pix_at(image, x, y, -3, 0);
    let p3 = pix_at(image, x, y, -4, 0);
    let p4 = pix_at(image, x, y, 2, -1);
    let p5 = pix_at(image, x, y, 1, -1);
    let p6 = pix_at(image, x, y, 0, -1);
    let p7 = pix_at(image, x, y, -1, -1);
    let p8 = pix_at(image, x, y, -2, -1);
    let p9 = pix_at(image, x, y, -3, -1);
    proof {
        lemma_ctx_bound16(p0, p1, p2, p3, p4, p5, p6, p7, p8, p9, 0, 0, 0, 0, 0, 0);
    }
    p0 | (p1 << 1u32) | (p2 << 2u32) | (p3 << 3u32) | (p4 << 4u32) | (p5 << 5u32) | (p6 << 6u32) | (p7 << 7u32)
        | (p8 << 8u32) | (p9 << 9u32)
}

/// Decode a bit with context number `i` of `stats`, reporting a context that names no
/// state of the coder.
pub fn decode_ctx(as_: &mut ArithState, stats: &mut [ArithCx], i: usize) -> (r: Result<u8, Jbig2Error>)
    requires
        old(as_).wf(),
        i < old(stats)@.len(),
    ensures
        final(as_).wf(),
        final(as_).bytes() == old(as_).bytes(),
        final(stats)@.len() == old(stats)@.len(),
        match spec_decode(old(as_).bytes(), old(as_).regs(), old(stats)@[i as int]) {
            None => r is Err,
            Some((regs, c, b)) => r == Ok::<u8, Jbig2Error>(b) && final(as_).regs() == regs && final(stats)@
                == old(stats)@.update(i as int, c) && b <= 1,
        },
{
    let mut cx = stats[i];
    let r = as_.decode(&mut cx);
    match r {
        Ok(b) => {
            stats[i] = cx;
            Ok(b)
        },
        Err(e) => Err(e),
    }
}

/// Facts that hold throughout a region decode on `image` with context table `stats`.
pub open spec fn region_inv(as_: &ArithState, stats: &[ArithCx], image: &Jbig2Image, d: Seq<u8>, w: u32, h: u32, s: u32, n_stats: int) -> bool {
    &&& as_.wf()
    &&& as_.bytes() == d
    &&& image.wf()
    &&& image.width == w
    &&& image.height == h
    &&& image.stride == s
    &&& stats@.len() == n_stats
}

/// Decode row `y` pixel by pixel with the context of `params.gb_template`.
#[verifier::rlimit(50)]
fn decode_single_row(
    params: &GenericRegionParams,
    nominal: bool,
    as_: &mut ArithState,
    image: &mut Jbig2Image,
    gb_stats: &mut [ArithCx],
    y: u32,
) -> (r: Result<(), Jbig2Error>)
    requires
        old(as_).wf(),
        old(image).wf(),
        y < old(image).height,
        old(gb_stats)@.len() >= spec_stats_size(params.gb_template),
    ensures
        region_inv(final(as_), final(gb_stats), final(image), old(as_).bytes(), old(image).width, old(image).height, old(image).stride, old(gb_stats)@.len() as int),
        ({
            let res = gb_row_from(
                old(as_).bytes(),
                region_state(old(as_), old(gb_stats), old(image)),
                nominal,
                params.gb_template,
                params.gbat,
                old(image).width as int,
                old(image).height as int,
                old(image).stride as int,
                y as int,
                0,
            );
            &&& r is Ok <==> res is Some
            &&& r is Ok ==> res == Some(region_state(final(as_), final(gb_stats), final(image)))
        }),
{
    let gbw = image.width;
    let ghost d = as_.bytes();
    let ghost (w, h, s) = (image.width, image.height, image.stride);
    let ghost n_stats = gb_stats@.len() as int;
    let ghost target = gb_row_from(d, region_state(as_, gb_stats, image), nominal, params.gb_template, params.gbat, w as int, h as int, s as int, y as int, 0);
    let mut x: u32 = 0;
    let mut res: Result<(), Jbig2Error> = Ok(());
    while x < gbw
        invariant_except_break
            x <= w,
            res is Ok,
            gb_row_from(d, region_state(as_, gb_stats, image), nominal, params.gb_template, params.gbat, w as int, h as int, s as int, y as int, x as int) == target,
        invariant
            region_inv(as_, gb_stats, image, d, w, h, s, n_stats),
            gbw == w,
            y < h,
            n_stats >= spec_stats_size(params.gb_template),
        ensures
            res is Ok ==> target == Some(region_state(as_, gb_stats, image)),
            res is Err ==> target is None,
        decreases w - x,
    {
        let context = if nominal {
            match params.gb_template {
                0 => build_context_n0(image, x, y),
                1 => build_context_n1(image, x, y),
                2 => build_context_n2(image, x, y),
                3 => build_context_n3(image, x, y),
                _ => 0,
            }
        } else {
            match params.gb_template {
                0 => build_context_t0(image, params, x, y),
                1 => build_context_t1(image, params, x, y),
                2 => build_context_t2(image, params, x, y),
                3 => build_context_t3(image, params, x, y),
                _ => 0,
            }
        };
        let ghost before = region_state(as_, gb_stats, image);
        proof {
            assert(context == row_context(nominal, params.gb_template, w as int, h as int, s as int, before.data, params.gbat, x as int, y as int));
        }
        let bit = match decode_ctx(as_, gb_stats, context as usize) {
            Ok(b) => b,
            Err(e) => {
                res = Err(e);
                break;
            },
        };
        let ghost mid = region_state(as_, gb_stats, image);
        proof {
            assert(step_bit(d, before, context as int) == Some((mid, bit)));
        }
        image.set_pixel(x, y, bit);
        proof {
            assert(region_state(as_, gb_stats, image) == RegionState { data: set_pixel_data(s as int, mid.data, x as int, y as int, bit), ..mid });
        }
        x += 1;
    }
    res
}

/// Decode the rows of a region without typical prediction (templates 0 to 3 with any
/// adaptive pixels, pixel by pixel).
fn decode_rows(
    params: &GenericRegionParams,
    as_: &mut ArithState,
    image: &mut Jbig2Image,
    gb_stats: &mut [ArithCx],
) -> (r: Result<(), Jbig2Error>)
    requires
        old(as_).wf(),
        old(image).wf(),
        old(gb_stats)@.len() >= spec_stats_size(params.gb_template),
    ensures
        region_inv(final(as_), final(gb_stats), final(image), old(as_).bytes(), old(image).width, old(image).height, old(image).stride, old(gb_stats)@.len() as int),
        ({
            let res = gb_rows_from(
                old(as_).bytes(),
                region_state(old(as_), old(gb_stats), old(image)),
                params.gb_template,
                params.gbat,
                old(image).width as int,
                old(image).height as int,
                old(image).stride as int,
                0,
            );
            &&& r is Ok <==> res is Some
            &&& r is Ok ==> res == Some(region_state(final(as_), final(gb_stats), final(image)))
        }),
{
    let gbh = image.height;
    let ghost d = as_.bytes();
    let ghost (w, h, s) = (image.width, image.height, image.stride);
    let ghost n_stats = gb_stats@.len() as int;
    let ghost target = gb_rows_from(d, region_state(as_, gb_stats, image), params.gb_template, params.gbat, w as int, h as int, s as int, 0);
    let mut y: u32 = 0;
    let mut res: Result<(), Jbig2Error> = Ok(());
    while y < gbh
        invariant_except_break
            y <= h,
            res is Ok,
            gb_rows_from(d, region_state(as_, gb_stats, image), params.gb_template, params.gbat, w as int, h as int, s as int, y as int) == target,
        invariant
            region_inv(as_, gb_stats, image, d, w, h, s, n_stats),
            gbh == h,
            n_stats >= spec_stats_size(params.gb_template),
        ensures
            res is Ok ==> target == Some(region_state(as_, gb_stats, image)),
            res is Err ==> target is None,
        decreases h - y,
    {
        match decode_single_row(params, false, as_, image, gb_stats, y) {
            Ok(()) => {},
            Err(e) => {
                res = Err(e);
                break;
            },
        }
        y += 1;
    }
    res
}

/// Clear the padding bits of row `y`.
fn clear_padding(image: &mut Jbig2Image, y: u32)
    requires
        old(image).wf(),
        y < old(image).height,
    ensures
        final(image).wf(),
        final(image).width == old(image).width,
        final(image).height == old(image).height,
        final(image).stride == old(image).stride,
        final(image).data@ == clear_row_padding(old(image).width as int, old(image).stride as int, old(image).data@, y as int),
{
    let stride = image.stride;
    let width = image.width;
    let ghost s = stride as int;
    let ghost old_data = image.data@;
    proof {
        assert(y as int * s + s <= image.height as int * s) by (nonlinear_arith)
            requires
                y < image.height,
                0 <= s,
        ;
        assert(s * image.height == image.height as int * s) by (nonlinear_arith);
        assert(0 <= y as int * s) by (nonlinear_arith)
            requires
                0 <= s,
        ;
    }
    let base = (y * stride) as usize;
    let mut k: u32 = 0;
    while k < stride
        invariant
            image.wf(),
            image.width == width,
            width == old(image).width,
            image.height == old(image).height,
            image.stride == stride,
            s == stride,
            base == y * s,
            y * s + s <= image.data@.len(),
            0 <= y * s,
            old_data == old(image).data@,
            k <= stride,
            image.data@.len() == old_data.len(),
            forall|i: int|
                0 <= i < old_data.len() ==> #[trigger] image.data@[i] == if y * s <= i < y * s + k {
                    old_data[i] & row_byte_mask(width as int, i - y * s)
                } else {
                    old_data[i]
                },
        decreases stride - k,
    {
        let mask: u8 = if width >= 8 * k + 8 {
            0xFF
        } else if width <= 8 * k {
            0
        } else {
            0xFFu8 << ((8 - (width - 8 * k)) as u8)
        };
        assert(mask == row_byte_mask(width as int, k as int));
        let b = image.data[base + k as usize];
        image.data.set(base + k as usize, b & mask);
        k += 1;
    }
    proof {
        assert(image.data@ =~= clear_row_padding(width as int, s, old_data, y as int));
    }
}

/// Decode the rows of a region with the nominal adaptive pixels (line-buffer context
/// order); each decoded row gets white padding.
fn decode_nominal_rows(
    params: &GenericRegionParams,
    as_: &mut ArithState,
    image: &mut Jbig2Image,
    gb_stats: &mut [ArithCx],
) -> (r: Result<(), Jbig2Error>)
    requires
        old(as_).wf(),
        old(image).wf(),
        old(gb_stats)@.len() >= spec_stats_size(params.gb_template),
    ensures
        region_inv(final(as_), final(gb_stats), final(image), old(as_).bytes(), old(image).width, old(image).height, old(image).stride, old(gb_stats)@.len() as int),
        ({
            let res = nominal_rows_from(
                old(as_).bytes(),
                region_state(old(as_), old(gb_stats), old(image)),
                params.gb_template,
                params.gbat,
                old(image).width as int,
                old(image).height as int,
                old(image).stride as int,
                0,
            );
            &&& r is Ok <==> res is Some
            &&& r is Ok ==> res == Some(region_state(final(as_), final(gb_stats), final(image)))
        }),
{
    let gbh = image.height;
    let ghost d = as_.bytes();
    let ghost (w, h, s) = (image.width, image.height, image.stride);
    let ghost n_stats = gb_stats@.len() as int;
    let ghost target = nominal_rows_from(d, region_state(as_, gb_stats, image), params.gb_template, params.gbat, w as int, h as int, s as int, 0);
    let mut y: u32 = 0;
    let mut res: Result<(), Jbig2Error> = Ok(());
    while y < gbh
        invariant_except_break
            y <= h,
            res is Ok,
            nominal_rows_from(d, region_state(as_, gb_stats, image), params.gb_template, params.gbat, w as int, h as int, s as int, y as int) == target,
        invariant
            region_inv(as_, gb_stats, image, d, w, h, s, n_stats),
            gbh == h,
            n_stats >= spec_stats_size(params.gb_template),
        ensures
            res is Ok ==> target == Some(region_state(as_, gb_stats, image)),
            res is Err ==> target is None,
        decreases h - y,
    {
        match decode_single_row(params, true, as_, image, gb_stats, y) {
            Ok(()) => {},
            Err(e) => {
                res = Err(e);
                break;
            },
        }
        clear_padding(image, y);
        y += 1;
    }
    res
}

/// Replace row `y` by row `y - 1` (row 0 by white).
fn copy_prev_row(image: &mut Jbig2Image, y: u32)
    requires
        old(image).wf(),
        y < old(image).height,
    ensures
        final(image).wf(),
        final(image).width == old(image).width,
        final(image).height == old(image).height,
        final(image).stride == old(image).stride,
        final(image).data@ == copy_row_data(old(image).stride as int, old(image).data@, y as int),
{
    let stride = image.stride;
    let ghost s = stride as int;
    let ghost old_data = image.data@;
    proof {
        assert(y as int * s + s <= image.height as int * s) by (nonlinear_arith)
            requires
                y < image.height,
                0 <= s,
        ;
        assert(s * image.height == image.height as int * s) by (nonlinear_arith);
        assert(y >= 1 ==> y as int * s >= s) by (nonlinear_arith)
            requires
                0 <= s,
        ;
        assert(0 <= y as int * s) by (nonlinear_arith)
            requires
                0 <= s,
        ;
    }
    let dst = (y * stride) as usize;
    let mut k: u32 = 0;
    while k < stride
        invariant
            image.wf(),
            image.width == old(image).width,
            image.height == old(image).height,
            image.stride == stride,
            s == stride,
            dst == y * s,
            y * s + s <= image.data@.len(),
            y >= 1 ==> y * s >= s,
            0 <= y * s,
            old_data == old(image).data@,
            k <= stride,
            image.data@.len() == old_data.len(),
            forall|i: int|
                0 <= i < old_data.len() ==> #[trigger] image.data@[i] == if y * s <= i < y * s + k {
                    if y == 0 {
                        0u8
                    } else {
                        old_data[i - s]
                    }
                } else {
                    old_data[i]
                },
        decreases stride - k,
    {
        let v: u8 = if y == 0 { 0 } else { image.data[dst + k as usize - stride as usize] };
        image.data.set(dst + k as usize, v);
        k += 1;
    }
    proof {
        assert(image.data@ =~= copy_row_data(s, old_data, y as int));
    }
}

/// Typical prediction for generic regions (6.2.5.7, TPGDON = 1).
fn decode_tpgd(
    params: &GenericRegionParams,
    as_: &mut ArithState,
    image: &mut Jbig2Image,
    gb_stats: &mut [ArithCx],
) -> (r: Result<(), Jbig2Error>)
    requires
        old(as_).wf(),
        old(image).wf(),
        old(gb_stats)@.len() >= spec_stats_size(params.gb_template),
    ensures
        region_inv(final(as_), final(gb_stats), final(image), old(as_).bytes(), old(image).width, old(image).height, old(image).stride, old(gb_stats)@.len() as int),
        ({
            let res = tpgd_rows_from(
                old(as_).bytes(),
                region_state(old(as_), old(gb_stats), old(image)),
                0,
                params.gb_template,
                params.gbat,
                old(image).width as int,
                old(image).height as int,
                old(image).stride as int,
                0,
            );
            &&& r is Ok <==> res is Some
            &&& r is Ok ==> res == Some(region_state(final(as_), final(gb_stats), final(image)))
        }),
{
    let gbh = image.height;
    let tpgd_cx: usize = match params.gb_template {
        0 => 0x9B25,
        1 => 0x0795,
        2 => 0xE5,
        _ => 0x0195,
    };
    let ghost d = as_.bytes();
    let ghost (w, h, s) = (image.width, image.height, image.stride);
    let ghost n_stats = gb_stats@.len() as int;
    let ghost target = tpgd_rows_from(d, region_state(as_, gb_stats, image), 0, params.gb_template, params.gbat, w as int, h as int, s as int, 0);
    let mut ltp: u8 = 0;
    let mut y: u32 = 0;
    let mut res: Result<(), Jbig2Error> = Ok(());
    while y < gbh
        invariant_except_break
            y <= h,
            res is Ok,
            tpgd_rows_from(d, region_state(as_, gb_stats, image), ltp, params.gb_template, params.gbat, w as int, h as int, s as int, y as int) == target,
        invariant
            region_inv(as_, gb_stats, image, d, w, h, s, n_stats),
            gbh == h,
            n_stats >= spec_stats_size(params.gb_template),
            tpgd_cx == tpgd_context(params.gb_template),
        ensures
            res is Ok ==> target == Some(region_state(as_, gb_stats, image)),
            res is Err ==> target is None,
        decreases h - y,
    {
        let bit = match decode_ctx(as_, gb_stats, tpgd_cx) {
            Ok(b) => b,
            Err(e) => {
                res = Err(e);
                break;
            },
        };
        ltp = ltp ^ bit;
        if ltp != 0 {
            copy_prev_row(image, y);
        } else {
            match decode_single_row(params, false, as_, image, gb_stats, y) {
                Ok(()) => {},
                Err(e) => {
                    res = Err(e);
                    break;
                },
            }
        }
        y += 1;
    }
    res
}

/// Decode a generic region with arithmetic coding into `image` (6.2.5.7), with the
/// context table `gb_stats`.
pub fn decode_generic_region(
    params: &GenericRegionParams,
    as_: &mut ArithState,
    image: &mut Jbig2Image,
    gb_stats: &mut [ArithCx],
) -> (r: Result<(), Jbig2Error>)
    requires
        old(as_).wf(),
        old(image).wf(),
        old(gb_stats)@.len() >= spec_stats_size(params.gb_template),
    ensures
        region_inv(final(as_), final(gb_stats), final(image), old(as_).bytes(), old(image).width, old(image).height, old(image).stride, old(gb_stats)@.len() as int),
        ({
            let res = spec_generic_region(
                old(as_).bytes(),
                old(as_).regs(),
                old(gb_stats)@,
                old(image).data@,
                *params,
                old(image).width as int,
                old(image).height as int,
                old(image).stride as int,
            );
            &&& r is Ok <==> res is Some
            &&& r is Ok ==> res == Some(region_state(final(as_), final(gb_stats), final(image)))
        }),
        params.gb_template <= 3 && ctx_valid(old(gb_stats)@) ==> r is Ok,
        !params.tpgdon && params.gb_template > 3 ==> (r matches Err(Jbig2Error::InvalidData(_))) && final(as_).regs()
            == old(as_).regs() && final(gb_stats)@ == old(gb_stats)@ && *final(image) == *old(image),
{
    proof {
        if params.gb_template <= 3 && ctx_valid(gb_stats@) {
            law_generic_region_succeeds(as_.bytes(), as_.regs(), gb_stats@, image.data@, *params, image.width as int, image.height as int, image.stride as int);
        }
    }
    if params.tpgdon {
        return decode_tpgd(params, as_, image, gb_stats);
    }
    if params.gb_template > 3 {
        return Err(Jbig2Error::InvalidData("invalid GBTEMPLATE".to_owned()));
    }
    let at = params.gbat;
    let nominal = if params.gb_template == 0 {
        at[0] == 3 && at[1] == -1 && at[2] == -3 && at[3] == -1 && at[4] == 2 && at[5] == -2 && at[6] == -2 && at[7] == -2
    } else if params.gb_template == 1 {
        at[0] == 3 && at[1] == -1
    } else {
        at[0] == 2 && at[1] == -1
    };
    if !params.use_skip && nominal {
        decode_nominal_rows(params, as_, image, gb_stats)
    } else {
        decode_rows(params, as_, image, gb_stats)
    }
}

} // verus!
