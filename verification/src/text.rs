//! Text regions (ITU T.88 6.4, 7.4.3): glyph instances from symbol dictionaries placed
//! on an image.

use vstd::prelude::*;
use crate::bytes::{be_u16, be_u32, read_u16_be, read_u32_be};
use crate::arith::{ArithRegs, ArithState};
use crate::arith_iaid::{spec_iaid_decode, ArithIaidCtx};
use crate::arith_int::{spec_int_decode, ArithIntCtx};
use crate::error::Jbig2Error;
use crate::image::{compose_bit, pixel_in, ComposeOp, ImageView, Jbig2Image};
use crate::symbol_dict::{cat_view, SymbolDict};
use vstd::arithmetic::power2::pow2;

verus! {

/// The corner of a glyph instance that its (S, T) coordinates name.
#[derive(Debug, Clone, Copy, PartialEq, Eq, Structural)]
pub enum RefCorner {
    BottomLeft,
    TopLeft,
    BottomRight,
    TopRight,
}

/// The reference corner with code `v & 3`.
pub open spec fn corner_of(v: u8) -> RefCorner {
    let c = v & 3;
    if c == 0 {
        RefCorner::BottomLeft
    } else if c == 1 {
        RefCorner::TopLeft
    } else if c == 2 {
        RefCorner::BottomRight
    } else {
        RefCorner::TopRight
    }
}

impl RefCorner {
    /// The reference corner coded by the two low bits of `v`.
    pub fn from_u8(v: u8) -> (r: Self)
        ensures
            r == corner_of(v),
    {
        let c = v & 3;
        if c == 0 {
            RefCorner::BottomLeft
        } else if c == 1 {
            RefCorner::TopLeft
        } else if c == 2 {
            RefCorner::BottomRight
        } else {
            RefCorner::TopRight
        }
    }
}

/// Text region segment parameters (7.4.3.1).
#[derive(Debug, Clone)]
pub struct TextRegionParams {
    pub sbhuff: bool,
    pub sbrefine: bool,
    pub sbdefpixel: bool,
    pub sbcombop: ComposeOp,
    pub transposed: bool,
    pub refcorner: RefCorner,
    pub sbdsoffset: i32,
    pub sbnuminstances: u32,
    pub logsbstrips: u8,
    pub sbstrips: u32,
    pub sbrtemplate: u8,
    pub sbrat: [i8; 4],
}

/// The combination operator with the two-bit code `v` of a text region.
pub open spec fn text_op_of(v: u16) -> ComposeOp {
    if v == 1 {
        ComposeOp::And
    } else if v == 2 {
        ComposeOp::Xor
    } else if v == 3 {
        ComposeOp::Xnor
    } else {
        ComposeOp::Or
    }
}

/// SBDSOFFSET: the 5-bit two's complement number in bits 10..15 of the flags.
pub open spec fn ds_offset_of(flags: u16) -> i32 {
    let raw = ((flags >> 10u16) & 0x1F) as i32;
    if raw > 15 {
        (raw - 32) as i32
    } else {
        raw
    }
}

/// Number of bytes of refinement adaptive template positions after the flags.
pub open spec fn text_rat_len(flags: u16) -> int {
    if flags & 1 == 0 && flags & 2 != 0 && (flags >> 15u16) & 1 == 0 {
        4
    } else {
        0
    }
}

/// Offset of SBNUMINSTANCES: after the flags, the Huffman table selection (when
/// SBHUFF is set) and the refinement adaptive template positions.
pub open spec fn instances_offset(flags: u16) -> int {
    2 + (if flags & 1 != 0 {
        2int
    } else {
        0int
    }) + text_rat_len(flags)
}

/// `p` and `n` are the text region parameters read from the start of `d` and the number
/// of bytes they take: the flags, the optional fields after them, and SBNUMINSTANCES.
pub open spec fn text_params_read(d: Seq<u8>, p: TextRegionParams, n: int) -> bool {
    let flags = be_u16(d, 0);
    let off = instances_offset(flags);
    &&& n == off + 4
    &&& p.sbhuff == (flags & 1 != 0)
    &&& p.sbrefine == (flags & 2 != 0)
    &&& p.logsbstrips == ((flags >> 2u16) & 3) as u8
    &&& p.sbstrips as int == vstd::arithmetic::power2::pow2(((flags >> 2u16) & 3) as nat)
    &&& p.refcorner == corner_of(((flags >> 4u16) & 3) as u8)
    &&& p.transposed == (flags & 0x40 != 0)
    &&& p.sbcombop == text_op_of((flags >> 7u16) & 3)
    &&& p.sbdefpixel == (flags & 0x200 != 0)
    &&& p.sbdsoffset == ds_offset_of(flags)
    &&& p.sbrtemplate == ((flags >> 15u16) & 1) as u8
    &&& forall|i: int| 0 <= i < 4 ==> p.sbrat[i] == if i < text_rat_len(flags) {
        d[off - 4 + i] as i8
    } else {
        0i8
    }
    &&& p.sbnuminstances == be_u32(d, off)
}

impl TextRegionParams {
    /// Parse the text region flags, the optional fields after them, and SBNUMINSTANCES;
    /// returns the parameters and the number of bytes read, `None` when `data` is too
    /// short.
    pub fn parse(data: &[u8]) -> (r: Option<(Self, usize)>)
        ensures
            data@.len() < 2 || data@.len() < instances_offset(be_u16(data@, 0)) + 4 ==> r is None,
            data@.len() >= 2 && data@.len() >= instances_offset(be_u16(data@, 0)) + 4 ==> (r matches Some((p, n))
                && text_params_read(data@, p, n as int)),
    {
        if data.len() < 2 {
            return None;
        }
        let flags = read_u16_be(data, 0);
        let sbhuff = flags & 0x0001 != 0;
        let sbrefine = (flags & 0x0002) != 0;
        let logsbstrips = ((flags & 0x000C) >> 2u16) as u8;
        assert((flags & 0x000C) >> 2u16 == (flags >> 2u16) & 3 && (flags >> 2u16) & 3 < 4 && ((flags >> 4u16) & 3) as u8
            & 3 == ((flags >> 4u16) & 3) as u8 && (flags >> 10u16) & 0x1F < 32 && (flags >> 15u16) & 1 < 2)
            by (bit_vector);
        proof {
            vstd::arithmetic::power2::lemma2_to64();
            vstd::bits::lemma_u32_shl_is_mul(1, logsbstrips as u32);
        }
        let sbstrips = 1u32 << logsbstrips;
        let refcorner = RefCorner::from_u8(((flags >> 4u16) & 3) as u8);
        let transposed = (flags & 0x0040) != 0;
        let sbcombop = match (flags >> 7u16) & 3 {
            0 => ComposeOp::Or,
            1 => ComposeOp::And,
            2 => ComposeOp::Xor,
            3 => ComposeOp::Xnor,
            _ => ComposeOp::Or,
        };
        let sbdefpixel = (flags & 0x0200) != 0;
        let raw_offset = ((flags >> 10u16) & 0x1F) as i32;
        let sbdsoffset = if raw_offset > 15 {
            raw_offset - 32
        } else {
            raw_offset
        };
        let sbrtemplate = ((flags >> 15u16) & 1) as u8;
        let mut offset: usize = 2;
        if sbhuff {
            if data.len() < offset + 2 {
                return None;
            }
            offset += 2;
        }
        let mut sbrat = [0i8; 4];
        if !sbhuff && sbrefine && sbrtemplate == 0 {
            if data.len() < offset + 4 {
                return None;
            }
            let mut i: usize = 0;
            while i < 4
                invariant
                    offset == 2,
                    offset + 4 <= data@.len(),
                    i <= 4,
                    forall|j: int| 0 <= j < i ==> sbrat[j] == data@[offset + j] as i8,
                    forall|j: int| i <= j < 4 ==> sbrat[j] == 0i8,
                decreases 4 - i,
            {
                sbrat[i] = data[offset + i] as i8;
                i += 1;
            }
            offset += 4;
        }
        if data.len() < offset + 4 {
            return None;
        }
        let sbnuminstances = read_u32_be(data, offset);
        offset += 4;
        Some((
            TextRegionParams {
                sbhuff,
                sbrefine,
                sbdefpixel,
                sbcombop,
                transposed,
                refcorner,
                sbdsoffset,
                sbnuminstances,
                logsbstrips,
                sbstrips,
                sbrtemplate,
                sbrat,
            },
            offset,
        ))
    }
}

/// The dictionaries' glyphs, front to back: glyph `id` of the concatenation, `None`
/// for an empty slot or a number past the end.
pub open spec fn cat_lookup(ds: Seq<&SymbolDict>, id: int) -> Option<ImageView>
    decreases ds.len(),
{
    if ds.len() == 0 {
        None
    } else if id < ds[0].glyphs@.len() {
        ds[0]@[id]
    } else {
        cat_lookup(ds.subrange(1, ds.len() as int), id - ds[0].glyphs@.len())
    }
}

/// The value of an optional glyph reference.
pub open spec fn ref_view(g: Option<&Jbig2Image>) -> Option<ImageView> {
    match g {
        Some(img) => Some(img@),
        None => None,
    }
}

/// Find glyph `id` of the concatenation of `dicts`.
fn lookup_glyph<'a>(dicts: &[&'a SymbolDict], id: u32) -> (r: Option<&'a Jbig2Image>)
    requires
        forall|k: int| 0 <= k < dicts@.len() ==> (#[trigger] dicts@[k]).wf(),
    ensures
        ref_view(r) == cat_lookup(dicts@, id as int),
        r matches Some(g) ==> exists|k: int, i: int|
            0 <= k < dicts@.len() && 0 <= i < dicts@[k].glyphs@.len() && #[trigger] dicts@[k].glyphs@[i]
                == Some(*g),
{
    let mut remaining = id;
    let mut k: usize = 0;
    assert(dicts@.subrange(0, dicts@.len() as int) =~= dicts@);
    while k < dicts.len()
        invariant
            k <= dicts@.len(),
            forall|j: int| 0 <= j < dicts@.len() ==> (#[trigger] dicts@[j]).wf(),
            cat_lookup(dicts@.subrange(k as int, dicts@.len() as int), remaining as int) == cat_lookup(dicts@, id as int),
        decreases dicts@.len() - k,
    {
        let dict = dicts[k];
        let n = dict.n_symbols();
        let ghost rest = dicts@.subrange(k as int, dicts@.len() as int);
        assert(rest[0] == dict);
        assert(rest.subrange(1, rest.len() as int) =~= dicts@.subrange(k + 1, dicts@.len() as int));
        if remaining < n {
            let g = dict.glyph(remaining);
            proof {
                assert(dict@[remaining as int] == crate::symbol_dict::glyph_view(dict.glyphs@[remaining as int]));
            }
            return g;
        }
        remaining -= n;
        k += 1;
    }
    None
}

/// The pixel (x, y) of an image value; 0 outside it.
pub open spec fn view_pixel(g: ImageView, x: int, y: int) -> u8 {
    pixel_in(g.width as int, g.height as int, g.stride as int, g.data, x, y)
}

/// The glyph extent `n` less one, as the 32-bit signed arithmetic of the coordinates
/// computes it.
pub open spec fn extent_less_one(n: u32) -> i32 {
    (n as i32).wrapping_sub(1)
}

/// Top-left corner of a `w` x `h` glyph instance at strip coordinates (s, t), from
/// TRANSPOSED and REFCORNER (6.4.11, steps 8 and 9).
pub open spec fn placement(p: TextRegionParams, s: i32, t: i32, w: u32, h: u32) -> (i32, i32) {
    let wi = w as i32;
    let hi = h as i32;
    let s_w = s.wrapping_sub(wi).wrapping_add(1);
    let s_h = s.wrapping_sub(hi).wrapping_add(1);
    let t_w = t.wrapping_sub(wi).wrapping_add(1);
    let t_h = t.wrapping_sub(hi).wrapping_add(1);
    if !p.transposed {
        match p.refcorner {
            RefCorner::TopLeft => (s, t),
            RefCorner::TopRight => (s_w, t),
            RefCorner::BottomLeft => (s, t_h),
            RefCorner::BottomRight => (s_w, t_h),
        }
    } else {
        match p.refcorner {
            RefCorner::TopLeft => (t, s),
            RefCorner::TopRight => (t_w, s),
            RefCorner::BottomLeft => (t, s_h),
            RefCorner::BottomRight => (t_w, s_h),
        }
    }
}

/// The pixel at the reference corner `c` of a `w` x `h` rectangle whose top-left pixel
/// is (x, y), in 32-bit wrapping arithmetic: the right column is x + w - 1, the bottom
/// row y + h - 1.
pub open spec fn corner_pixel(c: RefCorner, x: i32, y: i32, w: u32, h: u32) -> (i32, i32) {
    let right = x.wrapping_add(extent_less_one(w));
    let bottom = y.wrapping_add(extent_less_one(h));
    match c {
        RefCorner::TopLeft => (x, y),
        RefCorner::TopRight => (right, y),
        RefCorner::BottomLeft => (x, bottom),
        RefCorner::BottomRight => (right, bottom),
    }
}

/// A glyph instance is placed so that its reference corner (REFCORNER) lies at the
/// instance's strip coordinates: at (S, T), or at (T, S) in a transposed region
/// (6.4.11, steps 8 and 9). So a bottom-left corner puts the glyph's last row at T, and
/// corners that differ place a glyph taller (or wider) than one pixel differently.
pub proof fn law_placement_corner(p: TextRegionParams, s: i32, t: i32, w: u32, h: u32)
    ensures
        ({
            let (x, y) = placement(p, s, t, w, h);
            corner_pixel(p.refcorner, x, y, w, h) == if p.transposed { (t, s) } else { (s, t) }
        }),
{
}

/// Along the strip, a glyph instance starts at the current S (CURS) and CURS ends on the
/// glyph's last pixel (6.4.11, steps 6 to 10), whatever the reference corner: the glyph's
/// first column is CURS before the instance and its last column CURS after it, or, in a
/// transposed region, its first and last row.
pub proof fn law_instance_spans_curs(p: TextRegionParams, curs: i32, t: i32, w: u32, h: u32)
    ensures
        ({
            let s = pre_adjust(p, curs, w, h);
            let (x, y) = placement(p, s, t, w, h);
            let after = post_adjust(p, s, w, h);
            if p.transposed {
                y == curs && y.wrapping_add(extent_less_one(h)) == after
            } else {
                x == curs && x.wrapping_add(extent_less_one(w)) == after
            }
        }),
{
}

/// Compute the top-left corner of a `w` x `h` glyph instance at (s, t).
fn compute_placement(params: &TextRegionParams, s: i32, t: i32, w: u32, h: u32) -> (r: (i32, i32))
    ensures
        r == placement(*params, s, t, w, h),
{
    let w = w as i32;
    let h = h as i32;
    if !params.transposed {
        match params.refcorner {
            RefCorner::TopLeft => (s, t),
            RefCorner::TopRight => (s.wrapping_sub(w).wrapping_add(1), t),
            RefCorner::BottomLeft => (s, t.wrapping_sub(h).wrapping_add(1)),
            RefCorner::BottomRight => (s.wrapping_sub(w).wrapping_add(1), t.wrapping_sub(h).wrapping_add(1)),
        }
    } else {
        match params.refcorner {
            RefCorner::TopLeft => (t, s),
            RefCorner::TopRight => (t.wrapping_sub(w).wrapping_add(1), s),
            RefCorner::BottomLeft => (t, s.wrapping_sub(h).wrapping_add(1)),
            RefCorner::BottomRight => (t.wrapping_sub(w).wrapping_add(1), s.wrapping_sub(h).wrapping_add(1)),
        }
    }
}

/// SBSYMCODELEN for `nsyms` symbols: the least `n` from `n0` on with 2^n >= nsyms.
pub open spec fn code_len_from(n0: nat, nsyms: int) -> nat
    decreases 64 - n0,
{
    if n0 >= 64 || pow2(n0) >= nsyms {
        n0
    } else {
        code_len_from(n0 + 1, nsyms)
    }
}

/// SBSYMCODELEN: the least `n` with 2^n >= `nsyms`.
pub open spec fn sym_code_len(nsyms: u32) -> nat {
    code_len_from(0, nsyms as int)
}

/// Compute SBSYMCODELEN.
fn symbol_code_length(sbnumsyms: u32) -> (n: u8)
    ensures
        n as nat == sym_code_len(sbnumsyms),
        n <= 32,
{
    let mut n: u8 = 0;
    proof {
        vstd::arithmetic::power2::lemma2_to64();
    }
    while (1u64 << n) < sbnumsyms as u64
        invariant
            n <= 32,
            code_len_from(n as nat, sbnumsyms as int) == sym_code_len(sbnumsyms),
        decreases 32 - n,
    {
        proof {
            vstd::arithmetic::power2::lemma2_to64();
            vstd::bits::lemma_u64_shl_is_mul(1, n as u64);
        }
        if n >= 32 {
            proof {
                vstd::arithmetic::power2::lemma_pow2_strictly_increases(32, n as nat);
            }
        }
        n += 1;
    }
    proof {
        vstd::arithmetic::power2::lemma2_to64();
        vstd::bits::lemma_u64_shl_is_mul(1, n as u64);
    }
    n
}

/// The state of text region decoding between two steps: the decoder registers, the six
/// integer and symbol-ID context tables, the strip and S coordinates, and the region's
/// pixels.
pub struct TextState {
    pub regs: ArithRegs,
    pub iadt: Seq<u8>,
    pub iafs: Seq<u8>,
    pub iads: Seq<u8>,
    pub iait: Seq<u8>,
    pub iari: Seq<u8>,
    pub iaid: Seq<u8>,
    pub stript: i32,
    pub firsts: i32,
    pub curs: i32,
    pub pix: spec_fn(int, int) -> u8,
}

/// Where decoding stands: before a strip's DT, before its first symbol's S, or before
/// a later symbol's S.
pub enum TextPhase {
    Strip,
    First,
    Next,
}

/// An integer, with 0 for OOB.
pub open spec fn or_zero(v: Option<i32>) -> i32 {
    match v {
        Some(x) => x,
        None => 0,
    }
}

/// Decode a strip's DT and move STRIPT by DT * SBSTRIPS (6.4.6).
pub open spec fn dt_step(d: Seq<u8>, p: TextRegionParams, st: TextState) -> TextState {
    let (r, c, v) = spec_int_decode(d, st.regs, st.iadt);
    TextState {
        regs: r,
        iadt: c,
        stript: st.stript.wrapping_add(or_zero(v).wrapping_mul(p.sbstrips as i32)),
        ..st
    }
}

/// Decode the initial STRIPT before the first strip: STRIPT = -(DT * SBSTRIPS) (6.4.5,
/// step 2).
pub open spec fn initial_stript_step(d: Seq<u8>, p: TextRegionParams, st: TextState) -> TextState {
    let (r, c, v) = spec_int_decode(d, st.regs, st.iadt);
    TextState {
        regs: r,
        iadt: c,
        stript: 0i32.wrapping_sub(or_zero(v).wrapping_mul(p.sbstrips as i32)),
        ..st
    }
}

/// Decode a symbol's S: the strip's first S moves FIRSTS (6.4.7); a later one moves
/// CURS by IDS + SBDSOFFSET (6.4.8), or is OOB and ends the strip. The flag tells
/// whether a symbol follows.
pub open spec fn s_step(d: Seq<u8>, p: TextRegionParams, st: TextState, first: bool) -> (TextState, bool) {
    if first {
        let (r, c, v) = spec_int_decode(d, st.regs, st.iafs);
        let f = st.firsts.wrapping_add(or_zero(v));
        (TextState { regs: r, iafs: c, firsts: f, curs: f, ..st }, true)
    } else {
        let (r, c, v) = spec_int_decode(d, st.regs, st.iads);
        match v {
            None => (TextState { regs: r, iads: c, ..st }, false),
            Some(ids) => (
                TextState { regs: r, iads: c, curs: st.curs.wrapping_add(ids.wrapping_add(p.sbdsoffset)), ..st },
                true,
            ),
        }
    }
}

/// CURS before placing a `w` x `h` glyph: moved to the instance's far edge where the
/// reference corner lies there (6.4.11, step 6).
pub open spec fn pre_adjust(p: TextRegionParams, curs: i32, w: u32, h: u32) -> i32 {
    if !p.transposed && (p.refcorner == RefCorner::BottomRight || p.refcorner == RefCorner::TopRight) {
        curs.wrapping_add(extent_less_one(w))
    } else if p.transposed && (p.refcorner == RefCorner::BottomLeft || p.refcorner == RefCorner::BottomRight) {
        curs.wrapping_add(extent_less_one(h))
    } else {
        curs
    }
}

/// CURS after placing a `w` x `h` glyph (6.4.11, step 10).
pub open spec fn post_adjust(p: TextRegionParams, curs: i32, w: u32, h: u32) -> i32 {
    if !p.transposed && (p.refcorner == RefCorner::BottomLeft || p.refcorner == RefCorner::TopLeft) {
        curs.wrapping_add(extent_less_one(w))
    } else if p.transposed && (p.refcorner == RefCorner::TopLeft || p.refcorner == RefCorner::TopRight) {
        curs.wrapping_add(extent_less_one(h))
    } else {
        curs
    }
}

/// The pixels `pix` of a `w` x `h` region after combining glyph `g` into them with its
/// top-left corner at (x, y).
pub open spec fn place_glyph(
    pix: spec_fn(int, int) -> u8,
    w: int,
    h: int,
    g: ImageView,
    x: int,
    y: int,
    op: ComposeOp,
) -> spec_fn(int, int) -> u8 {
    |px: int, py: int|
        if 0 <= px < w && 0 <= py < h && 0 <= px - x < g.width && 0 <= py - y < g.height {
            compose_bit(op, pix(px, py), view_pixel(g, px - x, py - y))
        } else {
            pix(px, py)
        }
}

/// Decode the rest of a symbol instance after its S (6.4.9 to 6.4.11): T within the
/// strip, the symbol ID, the refinement flag when SBREFINE is set, then place the glyph
/// (when the ID names one) and move CURS past it.
pub open spec fn place_step(
    d: Seq<u8>,
    p: TextRegionParams,
    dicts: Seq<&SymbolDict>,
    w: int,
    h: int,
    code_len: nat,
    st: TextState,
) -> TextState {
    let (r1, c1, curt) = if p.sbstrips == 1 {
        (st.regs, st.iait, 0i32)
    } else {
        let (r, c, v) = spec_int_decode(d, st.regs, st.iait);
        (r, c, or_zero(v))
    };
    let t = st.stript.wrapping_add(curt);
    let (r2, c2, id) = spec_iaid_decode(d, r1, st.iaid, code_len);
    let (r3, c3) = if p.sbrefine {
        let (r, c, v) = spec_int_decode(d, r2, st.iari);
        (r, c)
    } else {
        (r2, st.iari)
    };
    match cat_lookup(dicts, id) {
        None => TextState { regs: r3, iait: c1, iaid: c2, iari: c3, ..st },
        Some(g) => {
            let s = pre_adjust(p, st.curs, g.width, g.height);
            let (x, y) = placement(p, s, t, g.width, g.height);
            TextState {
                regs: r3,
                iait: c1,
                iaid: c2,
                iari: c3,
                curs: post_adjust(p, s, g.width, g.height),
                pix: place_glyph(st.pix, w, h, g, x as int, y as int, p.sbcombop),
                ..st
            }
        },
    }
}

/// Rank of a phase in the order in which decoding passes through them without placing a
/// symbol.
pub open spec fn phase_rank(ph: TextPhase) -> int {
    match ph {
        TextPhase::Next => 2,
        TextPhase::Strip => 1,
        TextPhase::First => 0,
    }
}

/// The state at the end of text region decoding (6.4.5), from state `st` in phase `ph`
/// with `k` instances placed: strips follow one another until SBNUMINSTANCES instances
/// are placed; a strip ends when a later S is OOB.
pub open spec fn text_from(
    d: Seq<u8>,
    p: TextRegionParams,
    dicts: Seq<&SymbolDict>,
    w: int,
    h: int,
    code_len: nat,
    st: TextState,
    ph: TextPhase,
    k: int,
) -> TextState
    decreases p.sbnuminstances - k, phase_rank(ph),
{
    if k >= p.sbnuminstances {
        st
    } else {
        match ph {
            TextPhase::Strip => text_from(d, p, dicts, w, h, code_len, dt_step(d, p, st), TextPhase::First, k),
            TextPhase::First => {
                let s1 = s_step(d, p, st, true).0;
                text_from(d, p, dicts, w, h, code_len, place_step(d, p, dicts, w, h, code_len, s1), TextPhase::Next, k + 1)
            },
            TextPhase::Next => {
                let (s1, more) = s_step(d, p, st, false);
                if more {
                    text_from(d, p, dicts, w, h, code_len, place_step(d, p, dicts, w, h, code_len, s1), TextPhase::Next, k + 1)
                } else {
                    text_from(d, p, dicts, w, h, code_len, s1, TextPhase::Strip, k)
                }
            },
        }
    }
}

/// The state before the first strip: fresh contexts, coordinates 0, and the region's
/// pixels `pix`.
pub open spec fn text_start(regs: ArithRegs, code_len: nat, pix: spec_fn(int, int) -> u8) -> TextState {
    TextState {
        regs,
        iadt: Seq::new(512, |i: int| 0u8),
        iafs: Seq::new(512, |i: int| 0u8),
        iads: Seq::new(512, |i: int| 0u8),
        iait: Seq::new(512, |i: int| 0u8),
        iari: Seq::new(512, |i: int| 0u8),
        iaid: Seq::new(pow2(code_len), |i: int| 0u8),
        stript: 0,
        firsts: 0,
        curs: 0,
        pix,
    }
}

/// The pixels of `img` after the default pixel fill: all black when `black`.
pub open spec fn filled_pixels(img: Jbig2Image, black: bool) -> spec_fn(int, int) -> u8 {
    |px: int, py: int|
        if black && 0 <= px < img.width && 0 <= py < img.height {
            1u8
        } else {
            img.spec_pixel(px, py)
        }
}

/// The decoder registers, context tables, coordinates and pixels named by `st` are
/// those given.
pub open spec fn tracks(
    st: TextState,
    regs: ArithRegs,
    iadt: Seq<u8>,
    iafs: Seq<u8>,
    iads: Seq<u8>,
    iait: Seq<u8>,
    iari: Seq<u8>,
    iaid: Seq<u8>,
    stript: i32,
    firsts: i32,
    img: Jbig2Image,
) -> bool {
    &&& st.regs == regs
    &&& st.iadt == iadt
    &&& st.iafs == iafs
    &&& st.iads == iads
    &&& st.iait == iait
    &&& st.iari == iari
    &&& st.iaid == iaid
    &&& st.stript == stript
    &&& st.firsts == firsts
    &&& forall|px: int, py: int| #[trigger] img.spec_pixel(px, py) == (st.pix)(px, py)
}

/// Decoding ends once SBNUMINSTANCES instances are placed.
proof fn lemma_text_done(
    d: Seq<u8>,
    p: TextRegionParams,
    dicts: Seq<&SymbolDict>,
    w: int,
    h: int,
    code_len: nat,
    st: TextState,
    ph: TextPhase,
    k: int,
)
    requires
        k >= p.sbnuminstances,
    ensures
        text_from(d, p, dicts, w, h, code_len, st, ph, k) == st,
{
}

/// A strip begins with its DT.
proof fn lemma_text_strip(
    d: Seq<u8>,
    p: TextRegionParams,
    dicts: Seq<&SymbolDict>,
    w: int,
    h: int,
    code_len: nat,
    st: TextState,
    k: int,
)
    requires
        k < p.sbnuminstances,
    ensures
        text_from(d, p, dicts, w, h, code_len, st, TextPhase::Strip, k) == text_from(
            d,
            p,
            dicts,
            w,
            h,
            code_len,
            dt_step(d, p, st),
            TextPhase::First,
            k,
        ),
{
}

/// One symbol: its S, then (unless it is an OOB that ends the strip) the rest of the
/// instance.
proof fn lemma_text_symbol(
    d: Seq<u8>,
    p: TextRegionParams,
    dicts: Seq<&SymbolDict>,
    w: int,
    h: int,
    code_len: nat,
    st: TextState,
    first: bool,
    k: int,
)
    requires
        k < p.sbnuminstances,
    ensures
        ({
            let ph = if first {
                TextPhase::First
            } else {
                TextPhase::Next
            };
            let (s1, more) = s_step(d, p, st, first);
            &&& first ==> more
            &&& more ==> text_from(d, p, dicts, w, h, code_len, st, ph, k) == text_from(
                d,
                p,
                dicts,
                w,
                h,
                code_len,
                place_step(d, p, dicts, w, h, code_len, s1),
                TextPhase::Next,
                k + 1,
            )
            &&& !more ==> text_from(d, p, dicts, w, h, code_len, st, ph, k) == text_from(
                d,
                p,
                dicts,
                w,
                h,
                code_len,
                s1,
                TextPhase::Strip,
                k,
            )
        }),
{
}

/// The rest of a symbol instance after its S: T, the symbol ID, the refinement flag,
/// and the placement of the glyph; `st` is the state before.
fn place_symbol(
    params: &TextRegionParams,
    as_: &mut ArithState,
    iait: &mut ArithIntCtx,
    iaid: &mut ArithIaidCtx,
    iari: &mut ArithIntCtx,
    image: &mut Jbig2Image,
    dicts: &[&SymbolDict],
    stript: i32,
    curs: &mut i32,
    Ghost(st): Ghost<TextState>,
    Ghost(w): Ghost<int>,
    Ghost(h): Ghost<int>,
)
    requires
        old(as_).wf(),
        old(image).wf(),
        old(iait).wf(),
        old(iaid).wf(),
        old(iari).wf(),
        old(image).width == w,
        old(image).height == h,
        forall|k: int| 0 <= k < dicts@.len() ==> (#[trigger] dicts@[k]).wf(),
        forall|k: int, i: int|
            0 <= k < dicts@.len() && 0 <= i < dicts@[k].glyphs@.len() && dicts@[k].glyphs@[i] is Some
                ==> (#[trigger] dicts@[k].glyphs@[i]).unwrap().wf(),
        tracks(st, old(as_).regs(), st.iadt, st.iafs, st.iads, old(iait).contexts(), old(iari).contexts(),
            old(iaid).contexts(), stript, st.firsts, *old(image)),
        *old(curs) == st.curs,
    ensures
        final(as_).wf(),
        final(as_).bytes() == old(as_).bytes(),
        final(image).wf(),
        final(image).width == w,
        final(image).height == h,
        final(image).stride == old(image).stride,
        final(iait).wf(),
        final(iaid).wf(),
        final(iari).wf(),
        final(iaid).code_len() == old(iaid).code_len(),
        ({
            let st2 = place_step(old(as_).bytes(), *params, dicts@, w, h, old(iaid).code_len(), st);
            &&& tracks(st2, final(as_).regs(), st.iadt, st.iafs, st.iads, final(iait).contexts(),
                final(iari).contexts(), final(iaid).contexts(), stript, st.firsts, *final(image))
            &&& *final(curs) == st2.curs
        }),
{
    let curt: i32 = if params.sbstrips == 1 {
        0
    } else {
        match iait.decode(as_) {
            Ok(Some(v)) => v,
            _ => 0,
        }
    };
    let t = stript.wrapping_add(curt);
    let id = match iaid.decode(as_) {
        Ok(v) => v,
        Err(_) => 0,
    };
    let ib = lookup_glyph(dicts, id);
    if params.sbrefine {
        let _ri = iari.decode(as_);
    }
    let ghost before = *image;
    match ib {
        Some(g) => {
            if !params.transposed && (params.refcorner == RefCorner::BottomRight || params.refcorner
                == RefCorner::TopRight) {
                *curs = curs.wrapping_add((g.width as i32).wrapping_sub(1));
            } else if params.transposed && (params.refcorner == RefCorner::BottomLeft || params.refcorner
                == RefCorner::BottomRight) {
                *curs = curs.wrapping_add((g.height as i32).wrapping_sub(1));
            }
            let s = *curs;
            let (x, y) = compute_placement(params, s, t, g.width, g.height);
            let _ = image.compose(g, x, y, params.sbcombop);
            if !params.transposed && (params.refcorner == RefCorner::BottomLeft || params.refcorner
                == RefCorner::TopLeft) {
                *curs = curs.wrapping_add((g.width as i32).wrapping_sub(1));
            } else if params.transposed && (params.refcorner == RefCorner::TopLeft || params.refcorner
                == RefCorner::TopRight) {
                *curs = curs.wrapping_add((g.height as i32).wrapping_sub(1));
            }
            proof {
                let gv = g@;
                let pix1 = place_glyph(st.pix, w, h, gv, x as int, y as int, params.sbcombop);
                assert forall|px: int, py: int| #[trigger] image.spec_pixel(px, py) == pix1(px, py) by {
                    assert(before.spec_pixel(px, py) == (st.pix)(px, py));
                }
            }
        },
        None => {},
    }
}

/// Decode a text region with arithmetic coding (6.4.5): fill with the default pixel,
/// decode the initial STRIPT, then decode SBNUMINSTANCES symbol instances strip by strip and combine each glyph
/// into `image`. `dicts` are the referred symbol dictionaries, numbered one after the
/// other; `sbnumsyms` sets the length of the symbol ID codes. Refinement flags are
/// decoded, but glyphs are placed unrefined. Huffman-coded regions are refused.
pub fn decode_text_region(
    params: &TextRegionParams,
    as_: &mut ArithState,
    image: &mut Jbig2Image,
    dicts: &[&SymbolDict],
    sbnumsyms: u32,
) -> (r: Result<(), Jbig2Error>)
    requires
        old(as_).wf(),
        old(image).wf(),
        forall|k: int| 0 <= k < dicts@.len() ==> (#[trigger] dicts@[k]).wf(),
        forall|k: int, i: int|
            0 <= k < dicts@.len() && 0 <= i < dicts@[k].glyphs@.len() && dicts@[k].glyphs@[i] is Some
                ==> (#[trigger] dicts@[k].glyphs@[i]).unwrap().wf(),
    ensures
        final(as_).wf(),
        final(as_).bytes() == old(as_).bytes(),
        final(image).wf(),
        final(image).width == old(image).width,
        final(image).height == old(image).height,
        final(image).stride == old(image).stride,
        params.sbhuff ==> (r matches Err(e) && e is UnsupportedFeature) && final(as_).regs() == old(as_).regs()
            && *final(image) == *old(image),
        !params.sbhuff && sym_code_len(sbnumsyms) > 30 ==> (r matches Err(e) && e is InvalidData)
            && final(as_).regs() == old(as_).regs() && forall|px: int, py: int|
            #[trigger] final(image).spec_pixel(px, py) == filled_pixels(*old(image), params.sbdefpixel)(px, py),
        !params.sbhuff && sym_code_len(sbnumsyms) <= 30 ==> r is Ok && ({
            let fin = text_from(
                old(as_).bytes(),
                *params,
                dicts@,
                old(image).width as int,
                old(image).height as int,
                sym_code_len(sbnumsyms),
                initial_stript_step(
                    old(as_).bytes(),
                    *params,
                    text_start(old(as_).regs(), sym_code_len(sbnumsyms), filled_pixels(*old(image), params.sbdefpixel)),
                ),
                TextPhase::Strip,
                0,
            );
            &&& final(as_).regs() == fin.regs
            &&& forall|px: int, py: int| #[trigger] final(image).spec_pixel(px, py) == (fin.pix)(px, py)
        }),
{
    if params.sbhuff {
        return Err(Jbig2Error::UnsupportedFeature("huffman text region decoding".to_owned()));
    }
    let ghost img0 = *image;
    if params.sbdefpixel {
        image.clear(1);
    }
    let ghost pix0 = filled_pixels(img0, params.sbdefpixel);
    assert(forall|px: int, py: int| #[trigger] image.spec_pixel(px, py) == pix0(px, py));
    let mut iadt = ArithIntCtx::new();
    let mut iafs = ArithIntCtx::new();
    let mut iads = ArithIntCtx::new();
    let mut iait = ArithIntCtx::new();
    let mut iari = ArithIntCtx::new();
    let sbsymcodelen = symbol_code_length(sbnumsyms);
    let mut iaid = match ArithIaidCtx::new(sbsymcodelen) {
        Ok(c) => c,
        Err(e) => {
            return Err(e);
        },
    };
    let ghost d = as_.bytes();
    let ghost code_len = sym_code_len(sbnumsyms);
    let ghost w = image.width as int;
    let ghost h = image.height as int;
    let ghost mut st = text_start(as_.regs(), code_len, pix0);
    proof {
        assert(iadt.contexts() =~= st.iadt);
        assert(iafs.contexts() =~= st.iafs);
        assert(iads.contexts() =~= st.iads);
        assert(iait.contexts() =~= st.iait);
        assert(iari.contexts() =~= st.iari);
        assert(iaid.contexts() =~= st.iaid);
    }
    let dt0 = match iadt.decode(as_) {
        Ok(Some(v)) => v,
        _ => 0,
    };
    let mut stript: i32 = 0i32.wrapping_sub(dt0.wrapping_mul(params.sbstrips as i32));
    proof {
        st = initial_stript_step(d, *params, st);
    }
    let ghost fin = text_from(d, *params, dicts@, w, h, code_len, st, TextPhase::Strip, 0);
    let mut firsts: i32 = 0;
    let mut ninstances: u32 = 0;
    while ninstances < params.sbnuminstances
        invariant
            as_.wf(),
            as_.bytes() == d,
            image.wf(),
            image.width == w,
            image.height == h,
            image.stride == img0.stride,
            iadt.wf(),
            iafs.wf(),
            iads.wf(),
            iait.wf(),
            iari.wf(),
            iaid.wf(),
            iaid.code_len() == code_len,
            forall|k: int| 0 <= k < dicts@.len() ==> (#[trigger] dicts@[k]).wf(),
            forall|k: int, i: int|
                0 <= k < dicts@.len() && 0 <= i < dicts@[k].glyphs@.len() && dicts@[k].glyphs@[i] is Some
                    ==> (#[trigger] dicts@[k].glyphs@[i]).unwrap().wf(),
            tracks(st, as_.regs(), iadt.contexts(), iafs.contexts(), iads.contexts(), iait.contexts(),
                iari.contexts(), iaid.contexts(), stript, firsts, *image),
            ninstances <= params.sbnuminstances,
            text_from(d, *params, dicts@, w, h, code_len, st, TextPhase::Strip, ninstances as int) == fin,
        decreases params.sbnuminstances - ninstances,
    {
        let dt = match iadt.decode(as_) {
            Ok(Some(v)) => v,
            _ => 0,
        };
        stript = stript.wrapping_add(dt.wrapping_mul(params.sbstrips as i32));
        proof {
            lemma_text_strip(d, *params, dicts@, w, h, code_len, st, ninstances as int);
            st = dt_step(d, *params, st);
        }
        let ghost n_entry = ninstances;
        let mut first_s = true;
        let mut curs: i32 = 0;
        loop
            invariant_except_break
                ninstances < params.sbnuminstances,
                text_from(d, *params, dicts@, w, h, code_len, st, if first_s {
                    TextPhase::First
                } else {
                    TextPhase::Next
                }, ninstances as int) == fin,
            invariant
                as_.wf(),
                as_.bytes() == d,
                image.wf(),
                image.width == w,
                image.height == h,
                image.stride == img0.stride,
                iadt.wf(),
                iafs.wf(),
                iads.wf(),
                iait.wf(),
                iari.wf(),
                iaid.wf(),
                iaid.code_len() == code_len,
                forall|k: int| 0 <= k < dicts@.len() ==> (#[trigger] dicts@[k]).wf(),
                forall|k: int, i: int|
                    0 <= k < dicts@.len() && 0 <= i < dicts@[k].glyphs@.len() && dicts@[k].glyphs@[i] is Some
                        ==> (#[trigger] dicts@[k].glyphs@[i]).unwrap().wf(),
                tracks(st, as_.regs(), iadt.contexts(), iafs.contexts(), iads.contexts(), iait.contexts(),
                    iari.contexts(), iaid.contexts(), stript, firsts, *image),
                !first_s ==> curs == st.curs,
                ninstances <= params.sbnuminstances,
                n_entry <= ninstances,
                !first_s ==> n_entry < ninstances,
            ensures
                text_from(d, *params, dicts@, w, h, code_len, st, TextPhase::Strip, ninstances as int) == fin,
                n_entry < ninstances,
            decreases params.sbnuminstances - ninstances,
        {
            let ghost st0 = st;
            let ghost first0 = first_s;
            if first_s {
                let dfs = match iafs.decode(as_) {
                    Ok(Some(v)) => v,
                    _ => 0,
                };
                firsts = firsts.wrapping_add(dfs);
                curs = firsts;
                first_s = false;
            } else {
                match iads.decode(as_) {
                    Ok(Some(ids)) => {
                        curs = curs.wrapping_add(ids.wrapping_add(params.sbdsoffset));
                    },
                    _ => {
                        proof {
                            st = s_step(d, *params, st0, false).0;
                            lemma_text_symbol(d, *params, dicts@, w, h, code_len, st0, false, ninstances as int);
                        }
                        break;
                    },
                }
            }
            proof {
                st = s_step(d, *params, st0, first0).0;
            }
            let ghost st1 = st;
            place_symbol(params, as_, &mut iait, &mut iaid, &mut iari, image, dicts, stript, &mut curs, Ghost(st1), Ghost(w), Ghost(h));
            proof {
                st = place_step(d, *params, dicts@, w, h, code_len, st1);
                lemma_text_symbol(d, *params, dicts@, w, h, code_len, st0, first0, ninstances as int);
            }
            ninstances += 1;
            if ninstances >= params.sbnuminstances {
                proof {
                    lemma_text_done(d, *params, dicts@, w, h, code_len, st, TextPhase::Next, ninstances as int);
                    lemma_text_done(d, *params, dicts@, w, h, code_len, st, TextPhase::Strip, ninstances as int);
                }
                break;
            }
        }
    }
    Ok(())
}

} // verus!
