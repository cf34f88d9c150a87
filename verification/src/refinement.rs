//! Generic refinement region decoding (ITU T.88 6.3, 7.4.7).

use vstd::prelude::*;
use crate::arith::{ArithCx, ArithState};
use crate::error::Jbig2Error;
use crate::generic::{RegionState, ctx_valid, decode_ctx, pix, region_inv, region_state, step_bit, lemma_ctx_bound16, lemma_pix_bit, lemma_step_bit_ok};
use crate::image::{Jbig2Image, pixel_in, set_pixel_data};

verus! {

/// Refinement region parameters (Table 6).
#[derive(Debug, Clone)]
pub struct RefinementRegionParams {
    /// Template: 0 (13-pixel context) or anything else (10-pixel context, template 1).
    pub gr_template: u8,
    /// The reference bitmap.
    pub reference: Jbig2Image,
    pub reference_dx: i32,
    pub reference_dy: i32,
    /// Typical prediction on.
    pub tpgron: bool,
    /// Adaptive pixels (template 0 only).
    pub grat: [i8; 4],
}

/// Number of contexts of a refinement template: 2^13 for template 0, 2^10 otherwise.
pub open spec fn spec_refinement_stats_size(template: u8) -> int {
    if template != 0 {
        0x400
    } else {
        0x2000
    }
}

/// Size of the context table for refinement `template`.
pub fn refinement_stats_size(template: u8) -> (n: usize)
    ensures
        n == spec_refinement_stats_size(template),
{
    if template != 0 {
        0x400
    } else {
        0x2000
    }
}

/// Pixel (x - DX + ox, y - DY + oy) of the reference bitmap, coordinates modulo 2^32.
pub open spec fn rpix(p: RefinementRegionParams, x: int, y: int, ox: int, oy: int) -> u32 {
    let r = p.reference;
    pixel_in(
        r.width as int,
        r.height as int,
        r.stride as int,
        r.data@,
        ((x - p.reference_dx + ox) as u32) as int,
        ((y - p.reference_dy + oy) as u32) as int,
    ) as u32
}

/// The refinement context at (x, y) of the bitmap being decoded (`w` x `h`, rows of `s`
/// bytes in `d`): template 0 (Figure 12) or template 1 (Figure 13).
pub open spec fn rctx(p: RefinementRegionParams, w: int, h: int, s: int, d: Seq<u8>, x: int, y: int) -> u32 {
    if p.gr_template != 0 {
        pix(w, h, s, d, x, y, -1, 0) | (pix(w, h, s, d, x, y, 1, -1) << 1u32) | (pix(w, h, s, d, x, y, 0, -1) << 2u32)
            | (pix(w, h, s, d, x, y, -1, -1) << 3u32) | (rpix(p, x, y, 1, 1) << 4u32) | (rpix(p, x, y, 0, 1) << 5u32)
            | (rpix(p, x, y, 1, 0) << 6u32) | (rpix(p, x, y, 0, 0) << 7u32) | (rpix(p, x, y, -1, 0) << 8u32) | (rpix(p, x,
            y, 0, -1) << 9u32)
    } else {
        pix(w, h, s, d, x, y, -1, 0) | (pix(w, h, s, d, x, y, 1, -1) << 1u32) | (pix(w, h, s, d, x, y, 0, -1) << 2u32)
            | (pix(w, h, s, d, x, y, p.grat[0] as int, p.grat[1] as int) << 3u32) | (rpix(p, x, y, 1, 1) << 4u32) | (rpix(
            p,
            x,
            y,
            0,
            1,
        ) << 5u32) | (rpix(p, x, y, -1, 1) << 6u32) | (rpix(p, x, y, 1, 0) << 7u32) | (rpix(p, x, y, 0, 0) << 8u32) | (
        rpix(p, x, y, -1, 0) << 9u32) | (rpix(p, x, y, 1, -1) << 10u32) | (rpix(p, x, y, 0, -1) << 11u32) | (rpix(
            p,
            x,
            y,
            p.grat[2] as int,
            p.grat[3] as int,
        ) << 12u32)
    }
}

/// Decode pixels x, x+1, ... of row y with the refinement context.
pub open spec fn ref_row_from(d: Seq<u8>, st: RegionState, p: RefinementRegionParams, w: int, h: int, s: int, y: int, x: int) -> Option<RegionState>
    decreases w - x,
{
    if x >= w {
        Some(st)
    } else {
        match step_bit(d, st, rctx(p, w, h, s, st.data, x, y) as int) {
            None => None,
            Some((st2, b)) => ref_row_from(d, RegionState { data: set_pixel_data(s, st2.data, x, y, b), ..st2 }, p, w, h, s, y, x + 1),
        }
    }
}

/// Decode rows y, y+1, ... of a refinement region without typical prediction.
pub open spec fn ref_rows_from(d: Seq<u8>, st: RegionState, p: RefinementRegionParams, w: int, h: int, s: int, y: int) -> Option<RegionState>
    decreases h - y,
{
    if y >= h {
        Some(st)
    } else {
        match ref_row_from(d, st, p, w, h, s, y, 0) {
            None => None,
            Some(st2) => ref_rows_from(d, st2, p, w, h, s, y + 1),
        }
    }
}

/// The value of reference pixel (i, j) when it and its eight neighbours all agree.
pub open spec fn spec_implicit(r: Jbig2Image, i: int, j: int) -> Option<u8> {
    let m = r.spec_pixel((i as u32) as int, (j as u32) as int);
    let same = |dx: int, dy: int| r.spec_pixel(((i + dx) as u32) as int, ((j + dy) as u32) as int) == m;
    if same(-1, -1) && same(0, -1) && same(1, -1) && same(-1, 0) && same(1, 0) && same(-1, 1) && same(0, 1) && same(1, 1) {
        Some(m)
    } else {
        None
    }
}

/// Typical prediction of refinement regions (6.3.5.6): LTP is the parity of the SLTP
/// bits decoded so far. An SLTP bit of 0 keeps LTP, an SLTP bit of 1 flips it; with the
/// new LTP at 1 the row takes the reference's value at pixels with a uniform reference
/// neighbourhood, with LTP at 0 every pixel of the row is decoded; the rows after go on
/// with the new LTP.
pub proof fn law_tpgr_ltp(d: Seq<u8>, st: RegionState, ltp: u8, p: RefinementRegionParams, w: int, h: int, s: int, y: int)
    requires
        ltp <= 1,
        ctx_valid(st.stats),
        st.stats.len() >= spec_refinement_stats_size(p.gr_template),
        0 <= y < h,
    ensures
        step_bit(d, st, tpgr_context(p.gr_template)) matches Some((st1, sltp)) && {
            let next: u8 = if sltp == 0 { ltp } else { (1 - ltp) as u8 };
            let row = if next == 1 {
                tpgr_row_from(d, st1, p, w, h, s, y, 0)
            } else {
                ref_row_from(d, st1, p, w, h, s, y, 0)
            };
            tpgr_rows_from(d, st, ltp, p, w, h, s, y) == match row {
                None => None,
                Some(st2) => tpgr_rows_from(d, st2, next, p, w, h, s, y + 1),
            }
        },
{
    lemma_step_bit_ok(d, st, tpgr_context(p.gr_template));
    let (st1, b) = step_bit(d, st, tpgr_context(p.gr_template)).unwrap();
    crate::image::lemma_compose_bit_range(crate::image::ComposeOp::Or, ltp, b);
}

/// Pixel (i + dx, j + dy) of `r`, coordinates taken modulo 2^32.
pub open spec fn ref_pixel_at(r: Jbig2Image, i: int, j: int, dx: int, dy: int) -> u8 {
    r.spec_pixel(((i + dx) as u32) as int, ((j + dy) as u32) as int)
}

/// Typical prediction of refinement regions (6.3.5.6): a pixel is taken from the
/// reference exactly when the reference pixel and all eight of its neighbours, the
/// lower-right one included, have the same value, and then it takes that value.
pub proof fn law_implicit_uniform(r: Jbig2Image, i: int, j: int)
    ensures
        spec_implicit(r, i, j) is Some <==> forall|dx: int, dy: int|
            -1 <= dx <= 1 && -1 <= dy <= 1 ==> #[trigger] ref_pixel_at(r, i, j, dx, dy) == ref_pixel_at(r, i, j, 0, 0),
        spec_implicit(r, i, j) matches Some(v) ==> v == ref_pixel_at(r, i, j, 0, 0),
{
    let all = forall|dx: int, dy: int|
        -1 <= dx <= 1 && -1 <= dy <= 1 ==> #[trigger] ref_pixel_at(r, i, j, dx, dy) == ref_pixel_at(r, i, j, 0, 0);
    if spec_implicit(r, i, j) is Some {
        assert forall|dx: int, dy: int| -1 <= dx <= 1 && -1 <= dy <= 1 implies #[trigger] ref_pixel_at(r, i, j, dx, dy)
            == ref_pixel_at(r, i, j, 0, 0) by {
            assert(dx == -1 || dx == 0 || dx == 1);
            assert(dy == -1 || dy == 0 || dy == 1);
        }
    }
    if all {
        assert(ref_pixel_at(r, i, j, -1, -1) == ref_pixel_at(r, i, j, 0, 0));
        assert(ref_pixel_at(r, i, j, 0, -1) == ref_pixel_at(r, i, j, 0, 0));
        assert(ref_pixel_at(r, i, j, 1, -1) == ref_pixel_at(r, i, j, 0, 0));
        assert(ref_pixel_at(r, i, j, -1, 0) == ref_pixel_at(r, i, j, 0, 0));
        assert(ref_pixel_at(r, i, j, 1, 0) == ref_pixel_at(r, i, j, 0, 0));
        assert(ref_pixel_at(r, i, j, -1, 1) == ref_pixel_at(r, i, j, 0, 0));
        assert(ref_pixel_at(r, i, j, 0, 1) == ref_pixel_at(r, i, j, 0, 0));
        assert(ref_pixel_at(r, i, j, 1, 1) == ref_pixel_at(r, i, j, 0, 0));
    }
}

/// Decode pixels x, x+1, ... of a row with LTP = 1: pixels whose reference
/// neighbourhood is uniform copy it, the others are decoded (6.3.5.6, TPGRON).
pub open spec fn tpgr_row_from(d: Seq<u8>, st: RegionState, p: RefinementRegionParams, w: int, h: int, s: int, y: int, x: int) -> Option<RegionState>
    decreases w - x,
{
    if x >= w {
        Some(st)
    } else {
        match spec_implicit(p.reference, x - p.reference_dx, y - p.reference_dy) {
            Some(v) => tpgr_row_from(d, RegionState { data: set_pixel_data(s, st.data, x, y, v), ..st }, p, w, h, s, y, x + 1),
            None => match step_bit(d, st, rctx(p, w, h, s, st.data, x, y) as int) {
                None => None,
                Some((st2, b)) => tpgr_row_from(d, RegionState { data: set_pixel_data(s, st2.data, x, y, b), ..st2 }, p, w, h, s, y, x + 1),
            },
        }
    }
}

/// Context that codes the typical-prediction bit of refinement rows.
pub open spec fn tpgr_context(template: u8) -> int {
    if template != 0 {
        0x40
    } else {
        0x100
    }
}

/// Decode rows y, y+1, ... with typical prediction: each row starts with a bit that
/// toggles LTP.
pub open spec fn tpgr_rows_from(d: Seq<u8>, st: RegionState, ltp: u8, p: RefinementRegionParams, w: int, h: int, s: int, y: int) -> Option<RegionState>
    decreases h - y,
{
    if y >= h {
        Some(st)
    } else {
        match step_bit(d, st, tpgr_context(p.gr_template)) {
            None => None,
            Some((st1, b)) => {
                let ltp2 = ltp ^ b;
                let row = if ltp2 == 0 {
                    ref_row_from(d, st1, p, w, h, s, y, 0)
                } else {
                    tpgr_row_from(d, st1, p, w, h, s, y, 0)
                };
                match row {
                    None => None,
                    Some(st2) => tpgr_rows_from(d, st2, ltp2, p, w, h, s, y + 1),
                }
            },
        }
    }
}

/// The result of the refinement region decoding procedure (6.3.5.6) on a `w` x `h`
/// bitmap stored in `data`; `None` when decoding fails.
pub open spec fn spec_refinement_region(
    d: Seq<u8>,
    st: RegionState,
    p: RefinementRegionParams,
    w: int,
    h: int,
    s: int,
) -> Option<RegionState> {
    if p.tpgron {
        tpgr_rows_from(d, st, 0, p, w, h, s, 0)
    } else {
        ref_rows_from(d, st, p, w, h, s, 0)
    }
}

/// `p` and `q` differ at most in their reference bitmaps, which have the same pixels.
pub open spec fn same_but_reference(p: RefinementRegionParams, q: RefinementRegionParams) -> bool {
    &&& p.gr_template == q.gr_template
    &&& p.reference_dx == q.reference_dx
    &&& p.reference_dy == q.reference_dy
    &&& p.tpgron == q.tpgron
    &&& p.grat == q.grat
    &&& forall|x: int, y: int| #[trigger] p.reference.spec_pixel(x, y) == q.reference.spec_pixel(x, y)
}

proof fn lemma_rctx_congr(p: RefinementRegionParams, q: RefinementRegionParams, w: int, h: int, s: int, d: Seq<u8>, x: int, y: int)
    requires
        same_but_reference(p, q),
    ensures
        rctx(p, w, h, s, d, x, y) == rctx(q, w, h, s, d, x, y),
{
    assert forall|ox: int, oy: int| #[trigger] rpix(p, x, y, ox, oy) == rpix(q, x, y, ox, oy) by {
        let rx = ((x - p.reference_dx + ox) as u32) as int;
        let ry = ((y - p.reference_dy + oy) as u32) as int;
        assert(p.reference.spec_pixel(rx, ry) == q.reference.spec_pixel(rx, ry));
    }
}

proof fn lemma_implicit_congr(p: RefinementRegionParams, q: RefinementRegionParams, i: int, j: int)
    requires
        same_but_reference(p, q),
    ensures
        spec_implicit(p.reference, i, j) == spec_implicit(q.reference, i, j),
{
}

proof fn lemma_ref_row_congr(d: Seq<u8>, st: RegionState, p: RefinementRegionParams, q: RefinementRegionParams, w: int, h: int, s: int, y: int, x: int)
    requires
        same_but_reference(p, q),
    ensures
        ref_row_from(d, st, p, w, h, s, y, x) == ref_row_from(d, st, q, w, h, s, y, x),
    decreases w - x,
{
    if x < w {
        lemma_rctx_congr(p, q, w, h, s, st.data, x, y);
        match step_bit(d, st, rctx(p, w, h, s, st.data, x, y) as int) {
            None => {},
            Some((st2, b)) => {
                lemma_ref_row_congr(d, RegionState { data: set_pixel_data(s, st2.data, x, y, b), ..st2 }, p, q, w, h, s, y, x + 1);
            },
        }
    }
}

proof fn lemma_ref_rows_congr(d: Seq<u8>, st: RegionState, p: RefinementRegionParams, q: RefinementRegionParams, w: int, h: int, s: int, y: int)
    requires
        same_but_reference(p, q),
    ensures
        ref_rows_from(d, st, p, w, h, s, y) == ref_rows_from(d, st, q, w, h, s, y),
    decreases h - y,
{
    if y < h {
        lemma_ref_row_congr(d, st, p, q, w, h, s, y, 0);
        match ref_row_from(d, st, p, w, h, s, y, 0) {
            None => {},
            Some(st2) => {
                lemma_ref_rows_congr(d, st2, p, q, w, h, s, y + 1);
            },
        }
    }
}

proof fn lemma_tpgr_row_congr(d: Seq<u8>, st: RegionState, p: RefinementRegionParams, q: RefinementRegionParams, w: int, h: int, s: int, y: int, x: int)
    requires
        same_but_reference(p, q),
    ensures
        tpgr_row_from(d, st, p, w, h, s, y, x) == tpgr_row_from(d, st, q, w, h, s, y, x),
    decreases w - x,
{
    if x < w {
        lemma_implicit_congr(p, q, x - p.reference_dx, y - p.reference_dy);
        lemma_rctx_congr(p, q, w, h, s, st.data, x, y);
        match spec_implicit(p.reference, x - p.reference_dx, y - p.reference_dy) {
            Some(v) => {
                lemma_tpgr_row_congr(d, RegionState { data: set_pixel_data(s, st.data, x, y, v), ..st }, p, q, w, h, s, y, x + 1);
            },
            None => match step_bit(d, st, rctx(p, w, h, s, st.data, x, y) as int) {
                None => {},
                Some((st2, b)) => {
                    lemma_tpgr_row_congr(d, RegionState { data: set_pixel_data(s, st2.data, x, y, b), ..st2 }, p, q, w, h, s, y, x + 1);
                },
            },
        }
    }
}

proof fn lemma_tpgr_rows_congr(d: Seq<u8>, st: RegionState, ltp: u8, p: RefinementRegionParams, q: RefinementRegionParams, w: int, h: int, s: int, y: int)
    requires
        same_but_reference(p, q),
    ensures
        tpgr_rows_from(d, st, ltp, p, w, h, s, y) == tpgr_rows_from(d, st, ltp, q, w, h, s, y),
    decreases h - y,
{
    if y < h {
        match step_bit(d, st, tpgr_context(p.gr_template)) {
            None => {},
            Some((st1, b)) => {
                let ltp2 = ltp ^ b;
                lemma_ref_row_congr(d, st1, p, q, w, h, s, y, 0);
                lemma_tpgr_row_congr(d, st1, p, q, w, h, s, y, 0);
                let row = if ltp2 == 0 {
                    ref_row_from(d, st1, p, w, h, s, y, 0)
                } else {
                    tpgr_row_from(d, st1, p, w, h, s, y, 0)
                };
                match row {
                    None => {},
                    Some(st2) => {
                        lemma_tpgr_rows_congr(d, st2, ltp2, p, q, w, h, s, y + 1);
                    },
                }
            },
        }
    }
}

/// Refinement decoding reads the reference bitmap only through its pixels.
pub proof fn lemma_refinement_congr(d: Seq<u8>, st: RegionState, p: RefinementRegionParams, q: RefinementRegionParams, w: int, h: int, s: int)
    requires
        same_but_reference(p, q),
    ensures
        spec_refinement_region(d, st, p, w, h, s) == spec_refinement_region(d, st, q, w, h, s),
{
    lemma_tpgr_rows_congr(d, st, 0, p, q, w, h, s, 0);
    lemma_ref_rows_congr(d, st, p, q, w, h, s, 0);
}

/// A reference pixel read is 0 or 1.
proof fn lemma_rpix_bit(p: RefinementRegionParams, x: int, y: int, ox: int, oy: int)
    ensures
        rpix(p, x, y, ox, oy) <= 1,
{
    let r = p.reference;
    let rx = ((x - p.reference_dx + ox) as u32) as int;
    let ry = ((y - p.reference_dy + oy) as u32) as int;
    if 0 <= rx < r.width && 0 <= ry < r.height {
        crate::image::lemma_bit_of_range(r.data@[crate::image::byte_pos(r.stride as int, rx, ry)], rx % 8);
    }
}

/// The refinement context lies in the template's table.
proof fn lemma_rctx_bound(p: RefinementRegionParams, w: int, h: int, s: int, d: Seq<u8>, x: int, y: int)
    ensures
        rctx(p, w, h, s, d, x, y) < spec_refinement_stats_size(p.gr_template),
{
    if p.gr_template != 0 {
        lemma_pix_bit(w, h, s, d, x, y, -1, 0);
        lemma_pix_bit(w, h, s, d, x, y, 1, -1);
        lemma_pix_bit(w, h, s, d, x, y, 0, -1);
        lemma_pix_bit(w, h, s, d, x, y, -1, -1);
        lemma_rpix_bit(p, x, y, 1, 1);
        lemma_rpix_bit(p, x, y, 0, 1);
        lemma_rpix_bit(p, x, y, 1, 0);
        lemma_rpix_bit(p, x, y, 0, 0);
        lemma_rpix_bit(p, x, y, -1, 0);
        lemma_rpix_bit(p, x, y, 0, -1);
        lemma_ctx_bound16(
            pix(w, h, s, d, x, y, -1, 0),
            pix(w, h, s, d, x, y, 1, -1),
            pix(w, h, s, d, x, y, 0, -1),
            pix(w, h, s, d, x, y, -1, -1),
            rpix(p, x, y, 1, 1),
            rpix(p, x, y, 0, 1),
            rpix(p, x, y, 1, 0),
            rpix(p, x, y, 0, 0),
            rpix(p, x, y, -1, 0),
            rpix(p, x, y, 0, -1),
            0u32,
            0u32,
            0u32,
            0u32,
            0u32,
            0u32,
        );
    } else {
        lemma_pix_bit(w, h, s, d, x, y, -1, 0);
        lemma_pix_bit(w, h, s, d, x, y, 1, -1);
        lemma_pix_bit(w, h, s, d, x, y, 0, -1);
        lemma_pix_bit(w, h, s, d, x, y, p.grat[0] as int, p.grat[1] as int);
        lemma_rpix_bit(p, x, y, 1, 1);
        lemma_rpix_bit(p, x, y, 0, 1);
        lemma_rpix_bit(p, x, y, -1, 1);
        lemma_rpix_bit(p, x, y, 1, 0);
        lemma_rpix_bit(p, x, y, 0, 0);
        lemma_rpix_bit(p, x, y, -1, 0);
        lemma_rpix_bit(p, x, y, 1, -1);
        lemma_rpix_bit(p, x, y, 0, -1);
        lemma_rpix_bit(p, x, y, p.grat[2] as int, p.grat[3] as int);
        lemma_ctx_bound16(
            pix(w, h, s, d, x, y, -1, 0),
            pix(w, h, s, d, x, y, 1, -1),
            pix(w, h, s, d, x, y, 0, -1),
            pix(w, h, s, d, x, y, p.grat[0] as int, p.grat[1] as int),
            rpix(p, x, y, 1, 1),
            rpix(p, x, y, 0, 1),
            rpix(p, x, y, -1, 1),
            rpix(p, x, y, 1, 0),
            rpix(p, x, y, 0, 0),
            rpix(p, x, y, -1, 0),
            rpix(p, x, y, 1, -1),
            rpix(p, x, y, 0, -1),
            rpix(p, x, y, p.grat[2] as int, p.grat[3] as int),
            0u32,
            0u32,
            0u32,
        );
    }
}

proof fn lemma_ref_row_ok(d: Seq<u8>, st: RegionState, p: RefinementRegionParams, w: int, h: int, s: int, y: int, x: int)
    requires
        ctx_valid(st.stats),
        st.stats.len() >= spec_refinement_stats_size(p.gr_template),
    ensures
        ref_row_from(d, st, p, w, h, s, y, x) matches Some(r) && ctx_valid(r.stats) && r.stats.len() == st.stats.len(),
    decreases w - x,
{
    if x < w {
        let cx = rctx(p, w, h, s, st.data, x, y) as int;
        lemma_rctx_bound(p, w, h, s, st.data, x, y);
        lemma_step_bit_ok(d, st, cx);
        let (st2, b) = step_bit(d, st, cx).unwrap();
        lemma_ref_row_ok(d, RegionState { data: set_pixel_data(s, st2.data, x, y, b), ..st2 }, p, w, h, s, y, x + 1);
    }
}

proof fn lemma_ref_rows_ok(d: Seq<u8>, st: RegionState, p: RefinementRegionParams, w: int, h: int, s: int, y: int)
    requires
        ctx_valid(st.stats),
        st.stats.len() >= spec_refinement_stats_size(p.gr_template),
    ensures
        ref_rows_from(d, st, p, w, h, s, y) is Some,
    decreases h - y,
{
    if y < h {
        lemma_ref_row_ok(d, st, p, w, h, s, y, 0);
        lemma_ref_rows_ok(d, ref_row_from(d, st, p, w, h, s, y, 0).unwrap(), p, w, h, s, y + 1);
    }
}

proof fn lemma_tpgr_row_ok(d: Seq<u8>, st: RegionState, p: RefinementRegionParams, w: int, h: int, s: int, y: int, x: int)
    requires
        ctx_valid(st.stats),
        st.stats.len() >= spec_refinement_stats_size(p.gr_template),
    ensures
        tpgr_row_from(d, st, p, w, h, s, y, x) matches Some(r) && ctx_valid(r.stats) && r.stats.len() == st.stats.len(),
    decreases w - x,
{
    if x < w {
        match spec_implicit(p.reference, x - p.reference_dx, y - p.reference_dy) {
            Some(v) => {
                lemma_tpgr_row_ok(d, RegionState { data: set_pixel_data(s, st.data, x, y, v), ..st }, p, w, h, s, y, x + 1);
            },
            None => {
                let cx = rctx(p, w, h, s, st.data, x, y) as int;
                lemma_rctx_bound(p, w, h, s, st.data, x, y);
                lemma_step_bit_ok(d, st, cx);
                let (st2, b) = step_bit(d, st, cx).unwrap();
                lemma_tpgr_row_ok(d, RegionState { data: set_pixel_data(s, st2.data, x, y, b), ..st2 }, p, w, h, s, y, x + 1);
            },
        }
    }
}

proof fn lemma_tpgr_rows_ok(d: Seq<u8>, st: RegionState, ltp: u8, p: RefinementRegionParams, w: int, h: int, s: int, y: int)
    requires
        ctx_valid(st.stats),
        st.stats.len() >= spec_refinement_stats_size(p.gr_template),
    ensures
        tpgr_rows_from(d, st, ltp, p, w, h, s, y) is Some,
    decreases h - y,
{
    if y < h {
        lemma_step_bit_ok(d, st, tpgr_context(p.gr_template));
        let (st1, b) = step_bit(d, st, tpgr_context(p.gr_template)).unwrap();
        let ltp2 = ltp ^ b;
        lemma_ref_row_ok(d, st1, p, w, h, s, y, 0);
        lemma_tpgr_row_ok(d, st1, p, w, h, s, y, 0);
        let row = if ltp2 == 0 {
            ref_row_from(d, st1, p, w, h, s, y, 0)
        } else {
            tpgr_row_from(d, st1, p, w, h, s, y, 0)
        };
        lemma_tpgr_rows_ok(d, row.unwrap(), ltp2, p, w, h, s, y + 1);
    }
}

/// Refinement region decoding never fails when every context of the table names a
/// state of the coder, as a fresh (all-zero) table does.
pub proof fn law_refinement_region_succeeds(d: Seq<u8>, st: RegionState, p: RefinementRegionParams, w: int, h: int, s: int)
    requires
        ctx_valid(st.stats),
        st.stats.len() >= spec_refinement_stats_size(p.gr_template),
    ensures
        spec_refinement_region(d, st, p, w, h, s) is Some,
{
    lemma_tpgr_rows_ok(d, st, 0, p, w, h, s, 0);
    lemma_ref_rows_ok(d, st, p, w, h, s, 0);
}

/// Reference pixel (x - DX + ox, y - DY + oy).
fn ref_pix_at(params: &RefinementRegionParams, x: u32, y: u32, ox: i64, oy: i64) -> (v: u32)
    requires
        params.reference.wf(),
        -256 <= ox <= 256,
        -256 <= oy <= 256,
    ensures
        v == rpix(*params, x as int, y as int, ox as int, oy as int),
        v <= 1,
{
    let rx = (x as i64 - params.reference_dx as i64 + ox) as u32;
    let ry = (y as i64 - params.reference_dy as i64 + oy) as u32;
    params.reference.get_pixel(rx, ry) as u32
}

/// Current-bitmap pixel (x + ox, y + oy).
fn cur_pix_at(image: &Jbig2Image, x: u32, y: u32, ox: i64, oy: i64) -> (v: u32)
    requires
        image.wf(),
        -256 <= ox <= 256,
        -256 <= oy <= 256,
    ensures
        v == pix(image.width as int, image.height as int, image.stride as int, image.data@, x as int, y as int, ox as int, oy as int),
        v <= 1,
{
    let px = (x as i64 + ox) as u32;
    let py = (y as i64 + oy) as u32;
    image.get_pixel(px, py) as u32
}

/// The refinement context at (x, y).
fn build_context(params: &RefinementRegionParams, image: &Jbig2Image, x: u32, y: u32) -> (c: u32)
    requires
        image.wf(),
        params.reference.wf(),
    ensures
        c == rctx(*params, image.width as int, image.height as int, image.stride as int, image.data@, x as int, y as int),
        c < spec_refinement_stats_size(params.gr_template),
{
    if params.gr_template != 0 {
        let p0 = cur_pix_at(image, x, y, -1, 0);
        let p1 = cur_pix_at(image, x, y, 1, -1);
        let p2 = cur_pix_at(image, x, y, 0, -1);
        let p3 = cur_pix_at(image, x, y, -1, -1);
        let p4 = ref_pix_at(params, x, y, 1, 1);
        let p5 = ref_pix_at(params, x, y, 0, 1);
        let p6 = ref_pix_at(params, x, y, 1, 0);
        let p7 = ref_pix_at(params, x, y, 0, 0);
        let p8 = ref_pix_at(params, x, y, -1, 0);
        let p9 = ref_pix_at(params, x, y, 0, -1);
        proof {
            lemma_ctx_bound16(p0, p1, p2, p3, p4, p5, p6, p7, p8, p9, 0, 0, 0, 0, 0, 0);
        }
        p0 | (p1 << 1u32) | (p2 << 2u32) | (p3 << 3u32) | (p4 << 4u32) | (p5 << 5u32) | (p6 << 6u32) | (p7 << 7u32) | (
        p8 << 8u32) | (p9 << 9u32)
    } else {
        let g = params.grat;
        let p0 = cur_pix_at(image, x, y, -1, 0);
        let p1 = cur_pix_at(image, x, y, 1, -1);
        let p2 = cur_pix_at(image, x, y, 0, -1);
        let p3 = cur_pix_at(image, x, y, g[0] as i64, g[1] as i64);
        let p4 = ref_pix_at(params, x, y, 1, 1);
        let p5 = ref_pix_at(params, x, y, 0, 1);
        let p6 = ref_pix_at(params, x, y, -1, 1);
        let p7 = ref_pix_at(params, x, y, 1, 0);
        let p8 = ref_pix_at(params, x, y, 0, 0);
        let p9 = ref_pix_at(params, x, y, -1, 0);
        let p10 = ref_pix_at(params, x, y, 1, -1);
        let p11 = ref_pix_at(params, x, y, 0, -1);
        let p12 = ref_pix_at(params, x, y, g[2] as i64, g[3] as i64);
        proof {
            lemma_ctx_bound16(p0, p1, p2, p3, p4, p5, p6, p7, p8, p9, p10, p11, p12, 0, 0, 0);
        }
        p0 | (p1 << 1u32) | (p2 << 2u32) | (p3 << 3u32) | (p4 << 4u32) | (p5 << 5u32) | (p6 << 6u32) | (p7 << 7u32) | (
        p8 << 8u32) | (p9 << 9u32) | (p10 << 10u32) | (p11 << 11u32) | (p12 << 12u32)
    }
}

/// Whether reference pixel (i, j) and its eight neighbours all have the same value,
/// and that value.
fn implicit_value(r: &Jbig2Image, i: i64, j: i64) -> (v: Option<u8>)
    requires
        r.wf(),
        -0x4_0000_0000 < i < 0x4_0000_0000,
        -0x4_0000_0000 < j < 0x4_0000_0000,
    ensures
        v == spec_implicit(*r, i as int, j as int),
{
    let m = r.get_pixel(i as u32, j as u32);
    if r.get_pixel((i - 1) as u32, (j - 1) as u32) != m
        || r.get_pixel(i as u32, (j - 1) as u32) != m
        || r.get_pixel((i + 1) as u32, (j - 1) as u32) != m
        || r.get_pixel((i - 1) as u32, j as u32) != m
        || r.get_pixel((i + 1) as u32, j as u32) != m
        || r.get_pixel((i - 1) as u32, (j + 1) as u32) != m
        || r.get_pixel(i as u32, (j + 1) as u32) != m
        || r.get_pixel((i + 1) as u32, (j + 1) as u32) != m {
        return None;
    }
    Some(m)
}

/// Decode row `y`: pixel by pixel, or (typical prediction with LTP = 1) copying pixels
/// whose reference neighbourhood is uniform.
fn decode_refinement_row(
    params: &RefinementRegionParams,
    predicted: bool,
    as_: &mut ArithState,
    image: &mut Jbig2Image,
    gr_stats: &mut [ArithCx],
    y: u32,
) -> (r: Result<(), Jbig2Error>)
    requires
        old(as_).wf(),
        old(image).wf(),
        params.reference.wf(),
        y < old(image).height,
        old(gr_stats)@.len() >= spec_refinement_stats_size(params.gr_template),
    ensures
        region_inv(final(as_), final(gr_stats), final(image), old(as_).bytes(), old(image).width, old(image).height, old(image).stride, old(gr_stats)@.len() as int),
        ({
            let st0 = region_state(old(as_), old(gr_stats), old(image));
            let (w, h, s) = (old(image).width as int, old(image).height as int, old(image).stride as int);
            let res = if predicted {
                tpgr_row_from(old(as_).bytes(), st0, *params, w, h, s, y as int, 0)
            } else {
                ref_row_from(old(as_).bytes(), st0, *params, w, h, s, y as int, 0)
            };
            &&& r is Ok <==> res is Some
            &&& r is Ok ==> res == Some(region_state(final(as_), final(gr_stats), final(image)))
        }),
{
    let grw = image.width;
    let ghost d = as_.bytes();
    let ghost (w, h, s) = (image.width, image.height, image.stride);
    let ghost n_stats = gr_stats@.len() as int;
    let ghost target = if predicted {
        tpgr_row_from(d, region_state(as_, gr_stats, image), *params, w as int, h as int, s as int, y as int, 0)
    } else {
        ref_row_from(d, region_state(as_, gr_stats, image), *params, w as int, h as int, s as int, y as int, 0)
    };
    let mut x: u32 = 0;
    let mut res: Result<(), Jbig2Error> = Ok(());
    while x < grw
        invariant_except_break
            x <= w,
            res is Ok,
            target == if predicted {
                tpgr_row_from(d, region_state(as_, gr_stats, image), *params, w as int, h as int, s as int, y as int, x as int)
            } else {
                ref_row_from(d, region_state(as_, gr_stats, image), *params, w as int, h as int, s as int, y as int, x as int)
            },
        invariant
            region_inv(as_, gr_stats, image, d, w, h, s, n_stats),
            params.reference.wf(),
            grw == w,
            y < h,
            n_stats >= spec_refinement_stats_size(params.gr_template),
        ensures
            res is Ok ==> target == Some(region_state(as_, gr_stats, image)),
            res is Err ==> target is None,
        decreases w - x,
    {
        let implicit = if predicted {
            implicit_value(&params.reference, x as i64 - params.reference_dx as i64, y as i64 - params.reference_dy as i64)
        } else {
            None
        };
        match implicit {
            Some(v) => {
                image.set_pixel(x, y, v);
            },
            None => {
                let ctx = build_context(params, image, x, y);
                let ghost before = region_state(as_, gr_stats, image);
                let bit = match decode_ctx(as_, gr_stats, ctx as usize) {
                    Ok(b) => b,
                    Err(e) => {
                        res = Err(e);
                        break;
                    },
                };
                let ghost mid = region_state(as_, gr_stats, image);
                proof {
                    assert(step_bit(d, before, ctx as int) == Some((mid, bit)));
                }
                image.set_pixel(x, y, bit);
            },
        }
        x += 1;
    }
    res
}

/// Decode a generic refinement region into `image` with the context table `gr_stats`.
pub fn decode_refinement_region(
    params: &RefinementRegionParams,
    as_: &mut ArithState,
    image: &mut Jbig2Image,
    gr_stats: &mut [ArithCx],
) -> (r: Result<(), Jbig2Error>)
    requires
        old(as_).wf(),
        old(image).wf(),
        params.reference.wf(),
        old(gr_stats)@.len() >= spec_refinement_stats_size(params.gr_template),
    ensures
        region_inv(final(as_), final(gr_stats), final(image), old(as_).bytes(), old(image).width, old(image).height, old(image).stride, old(gr_stats)@.len() as int),
        ({
            let res = spec_refinement_region(
                old(as_).bytes(),
                region_state(old(as_), old(gr_stats), old(image)),
                *params,
                old(image).width as int,
                old(image).height as int,
                old(image).stride as int,
            );
            &&& r is Ok <==> res is Some
            &&& r is Ok ==> res == Some(region_state(final(as_), final(gr_stats), final(image)))
        }),
        ctx_valid(old(gr_stats)@) ==> r is Ok,
{
    proof {
        if ctx_valid(gr_stats@) {
            law_refinement_region_succeeds(as_.bytes(), region_state(as_, gr_stats, image), *params, image.width as int, image.height as int, image.stride as int);
        }
    }
    let grh = image.height;
    let start_context: usize = if params.gr_template != 0 { 0x40 } else { 0x100 };
    let ghost d = as_.bytes();
    let ghost (w, h, s) = (image.width, image.height, image.stride);
    let ghost n_stats = gr_stats@.len() as int;
    let ghost target = spec_refinement_region(d, region_state(as_, gr_stats, image), *params, w as int, h as int, s as int);
    let mut ltp: u8 = 0;
    let mut y: u32 = 0;
    let mut res: Result<(), Jbig2Error> = Ok(());
    while y < grh
        invariant_except_break
            y <= h,
            res is Ok,
            target == if params.tpgron {
                tpgr_rows_from(d, region_state(as_, gr_stats, image), ltp, *params, w as int, h as int, s as int, y as int)
            } else {
                ref_rows_from(d, region_state(as_, gr_stats, image), *params, w as int, h as int, s as int, y as int)
            },
        invariant
            region_inv(as_, gr_stats, image, d, w, h, s, n_stats),
            params.reference.wf(),
            grh == h,
            n_stats >= spec_refinement_stats_size(params.gr_template),
            start_context == tpgr_context(params.gr_template),
        ensures
            res is Ok ==> target == Some(region_state(as_, gr_stats, image)),
            res is Err ==> target is None,
        decreases h - y,
    {
        let mut predicted = false;
        if params.tpgron {
            let bit = match decode_ctx(as_, gr_stats, start_context) {
                Ok(b) => b,
                Err(e) => {
                    res = Err(e);
                    break;
                },
            };
            ltp = ltp ^ bit;
            predicted = ltp != 0;
        }
        match decode_refinement_row(params, predicted, as_, image, gr_stats, y) {
            Ok(()) => {},
            Err(e) => {
                res = Err(e);
                break;
            },
        }
        y += 1;
    }
    res
}

} // verus!
