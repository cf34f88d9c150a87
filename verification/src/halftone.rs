//! Pattern dictionaries and halftone regions (ITU T.88 6.6, 6.7, 7.4.4, 7.4.5).

use vstd::prelude::*;
use crate::bytes::{be_u16, be_u32, read_u16_be, read_u32_be};
use crate::error::Jbig2Error;
use crate::image::{ComposeOp, Jbig2Image, compose_bit, stride_of};

verus! {

/// A pattern dictionary: patterns of `hpw` x `hph` pixels.
#[derive(Debug, Clone)]
pub struct PatternDict {
    pub patterns: Vec<Jbig2Image>,
    pub hpw: u32,
    pub hph: u32,
}

/// Pattern dictionary segment parameters (7.4.4.1).
#[derive(Debug, Clone, Copy)]
pub struct PatternDictParams {
    pub hdmmr: bool,
    pub hdtemplate: u8,
    pub hdpw: u32,
    pub hdph: u32,
    pub graymax: u32,
}

impl PatternDictParams {
    /// Parse the pattern dictionary flags, pattern size and GRAYMAX (7 bytes).
    pub fn parse(data: &[u8]) -> (r: Option<(Self, usize)>)
        ensures
            data@.len() < 7 ==> r is None,
            data@.len() >= 7 ==> (r matches Some((p, n)) && n == 7 && p.hdmmr == (data@[0] & 1 != 0)
                && p.hdtemplate == (data@[0] >> 1u8) & 3 && p.hdpw == data@[1] as u32 && p.hdph
                == data@[2] as u32 && p.graymax == be_u32(data@, 3)),
    {
        if data.len() < 7 {
            return None;
        }
        let flags = data[0];
        Some((
            PatternDictParams {
                hdmmr: flags & 1 != 0,
                hdtemplate: (flags >> 1u8) & 3,
                hdpw: data[1] as u32,
                hdph: data[2] as u32,
                graymax: read_u32_be(data, 3),
            },
            7,
        ))
    }
}

impl PatternDict {
    /// Cut the collective bitmap into `n_patterns` patterns of `hpw` x `hph`: pattern i
    /// is the block of columns i*hpw .. (i+1)*hpw.
    pub fn from_collective(collective: &Jbig2Image, hpw: u32, hph: u32, n_patterns: u32) -> (d: Self)
        requires
            collective.wf(),
            hpw as int + 7 <= u32::MAX,
            stride_of(hpw as int) * hph as int <= u32::MAX,
            n_patterns as int * hpw as int <= u32::MAX + 1,
        ensures
            d.hpw == hpw,
            d.hph == hph,
            d.patterns@.len() == n_patterns,
            forall|i: int|
                #![trigger d.patterns@[i]]
                0 <= i < n_patterns ==> {
                    let pat = d.patterns@[i];
                    &&& pat.wf()
                    &&& pat.width == hpw
                    &&& pat.height == hph
                    &&& forall|x: int, y: int|
                        #[trigger] pat.spec_pixel(x, y) == if 0 <= x < hpw && 0 <= y < hph {
                            collective.spec_pixel(i * hpw + x, y)
                        } else {
                            0
                        }
                },
    {
        let mut patterns: Vec<Jbig2Image> = Vec::new();
        let mut i: u32 = 0;
        while i < n_patterns
            invariant
                collective.wf(),
                i <= n_patterns,
                hpw as int + 7 <= u32::MAX,
                stride_of(hpw as int) * hph as int <= u32::MAX,
                n_patterns as int * hpw as int <= u32::MAX + 1,
                patterns@.len() == i,
                forall|k: int|
                    #![trigger patterns@[k]]
                    0 <= k < i ==> {
                        let pat = patterns@[k];
                        &&& pat.wf()
                        &&& pat.width == hpw
                        &&& pat.height == hph
                        &&& forall|x: int, y: int|
                            #[trigger] pat.spec_pixel(x, y) == if 0 <= x < hpw && 0 <= y < hph {
                                collective.spec_pixel(k * hpw + x, y)
                            } else {
                                0
                            }
                    },
            decreases n_patterns - i,
        {
            proof {
                assert(i as int * hpw as int + hpw <= n_patterns as int * hpw as int) by (nonlinear_arith)
                    requires
                        i < n_patterns,
                ;
            }
            let mut pat = Jbig2Image::new(hpw, hph);
            let mut y: u32 = 0;
            while y < hph
                invariant
                    collective.wf(),
                    pat.wf(),
                    pat.width == hpw,
                    pat.height == hph,
                    y <= hph,
                    i as int * hpw as int + hpw <= u32::MAX + 1,
                    forall|px: int, py: int|
                        #[trigger] pat.spec_pixel(px, py) == if 0 <= px < hpw && 0 <= py < y {
                            collective.spec_pixel(i * hpw + px, py)
                        } else {
                            0
                        },
                decreases hph - y,
            {
                let mut x: u32 = 0;
                while x < hpw
                    invariant
                        collective.wf(),
                        pat.wf(),
                        pat.width == hpw,
                        pat.height == hph,
                        y < hph,
                        x <= hpw,
                        i as int * hpw as int + hpw <= u32::MAX + 1,
                        forall|px: int, py: int|
                            #[trigger] pat.spec_pixel(px, py) == if 0 <= px < hpw && (0 <= py < y || (py
                                == y && px < x)) {
                                collective.spec_pixel(i * hpw + px, py)
                            } else {
                                0
                            },
                    decreases hpw - x,
                {
                    let px = collective.get_pixel(i * hpw + x, y);
                    pat.set_pixel(x, y, px);
                    x += 1;
                }
                y += 1;
            }
            patterns.push(pat);
            i += 1;
        }
        PatternDict { patterns, hpw, hph }
    }
}

/// Halftone region segment parameters (7.4.5.1).
#[derive(Debug, Clone, Copy)]
pub struct HalftoneRegionParams {
    pub hmmr: bool,
    pub htemplate: u8,
    pub henableskip: bool,
    pub hcombop: ComposeOp,
    pub hdefpixel: bool,
    pub hgw: u32,
    pub hgh: u32,
    pub hgx: i32,
    pub hgy: i32,
    pub hrx: u16,
    pub hry: u16,
}

/// The combination operator with code `v` (Or for the undefined codes 5 to 7).
pub open spec fn op_of(v: u8) -> ComposeOp {
    if v == 1 {
        ComposeOp::And
    } else if v == 2 {
        ComposeOp::Xor
    } else if v == 3 {
        ComposeOp::Xnor
    } else if v == 4 {
        ComposeOp::Replace
    } else {
        ComposeOp::Or
    }
}

impl HalftoneRegionParams {
    /// Parse the halftone region flags and grid (21 bytes after the region information).
    pub fn parse(data: &[u8]) -> (r: Option<(Self, usize)>)
        ensures
            data@.len() < 21 ==> r is None,
            data@.len() >= 21 ==> ({
                let d = data@;
                let f = d[0];
                r matches Some((p, n)) && n == 21 && p.hmmr == (f & 1 != 0) && p.htemplate == (f >> 1u8) & 3
                    && p.henableskip == ((f >> 3u8) & 1 != 0) && p.hcombop == op_of((f >> 4u8) & 7)
                    && p.hdefpixel == ((f >> 7u8) & 1 != 0) && p.hgw == be_u32(d, 1) && p.hgh == be_u32(d, 5)
                    && p.hgx == be_u32(d, 9) as i32 && p.hgy == be_u32(d, 13) as i32 && p.hrx == be_u16(d, 17)
                    && p.hry == be_u16(d, 19)
            }),
    {
        if data.len() < 21 {
            return None;
        }
        let flags = data[0];
        let hcombop = match (flags >> 4u8) & 7 {
            1 => ComposeOp::And,
            2 => ComposeOp::Xor,
            3 => ComposeOp::Xnor,
            4 => ComposeOp::Replace,
            _ => ComposeOp::Or,
        };
        Some((
            HalftoneRegionParams {
                hmmr: flags & 1 != 0,
                htemplate: (flags >> 1u8) & 3,
                henableskip: (flags >> 3u8) & 1 != 0,
                hcombop,
                hdefpixel: (flags >> 7u8) & 1 != 0,
                hgw: read_u32_be(data, 1),
                hgh: read_u32_be(data, 5),
                hgx: read_u32_be(data, 9) as i32,
                hgy: read_u32_be(data, 13) as i32,
                hrx: read_u16_be(data, 17),
                hry: read_u16_be(data, 19),
            },
            21,
        ))
    }
}

/// Horizontal position of grid cell (mg, ng): the 8.8 fixed-point grid formula, rounded down.
pub open spec fn cell_x(p: HalftoneRegionParams, mg: int, ng: int) -> i64 {
    ((p.hgx + mg * p.hry + ng * p.hrx) as i64) >> 8u64
}

/// Vertical position of grid cell (mg, ng).
pub open spec fn cell_y(p: HalftoneRegionParams, mg: int, ng: int) -> i64 {
    ((p.hgy + mg * p.hrx - ng * p.hry) as i64) >> 8u64
}

/// The pattern index of cell (mg, ng): the gray value (0 where none is given),
/// limited to the last pattern.
pub open spec fn cell_index(gray: Seq<Vec<u32>>, n_patterns: int, mg: int, ng: int) -> int {
    let gv: int = if ng < gray.len() && mg < gray[ng]@.len() { gray[ng]@[mg] as int } else { 0 };
    if gv >= n_patterns {
        if n_patterns > 0 { n_patterns - 1 } else { 0 }
    } else {
        gv
    }
}

/// Whether cell (mg, ng) places a pattern on a `w` x `h` image.
pub open spec fn cell_placed(p: HalftoneRegionParams, pd: PatternDict, gray: Seq<Vec<u32>>, w: int, h: int, mg: int, ng: int) -> bool {
    let x = cell_x(p, mg, ng) as int;
    let y = cell_y(p, mg, ng) as int;
    let skipped = p.henableskip && (x + pd.hpw <= 0 || x >= w || y + pd.hph <= 0 || y >= h);
    !skipped && cell_index(gray, pd.patterns@.len() as int, mg, ng) < pd.patterns@.len()
}

/// Pixel (px, py) of the region after the default pixel fill and all grid cells before
/// (mg, ng) in row-major order have placed their patterns (6.6.5).
pub open spec fn ht_pixel(
    p: HalftoneRegionParams,
    pd: PatternDict,
    gray: Seq<Vec<u32>>,
    img: Jbig2Image,
    mg: int,
    ng: int,
    px: int,
    py: int,
) -> u8
    decreases mg, ng,
{
    let w = img.width as int;
    let h = img.height as int;
    if mg <= 0 && ng <= 0 {
        if p.hdefpixel && 0 <= px < w && 0 <= py < h { 1u8 } else { img.spec_pixel(px, py) }
    } else if ng <= 0 {
        ht_pixel(p, pd, gray, img, mg - 1, p.hgw as int, px, py)
    } else {
        let prev = ht_pixel(p, pd, gray, img, mg, ng - 1, px, py);
        let m = mg;
        let n = ng - 1;
        if cell_placed(p, pd, gray, w, h, m, n) {
            let pat = pd.patterns@[cell_index(gray, pd.patterns@.len() as int, m, n)];
            let dx = (cell_x(p, m, n) as i32) as int;
            let dy = (cell_y(p, m, n) as i32) as int;
            if 0 <= px < w && 0 <= py < h && 0 <= px - dx < pat.width && 0 <= py - dy < pat.height {
                compose_bit(p.hcombop, prev, pat.spec_pixel(px - dx, py - dy))
            } else {
                prev
            }
        } else {
            prev
        }
    }
}

proof fn lemma_grid_products(mg: int, ng: int, hrx: int, hry: int)
    requires
        0 <= mg <= u32::MAX,
        0 <= ng <= u32::MAX,
        0 <= hrx <= u16::MAX,
        0 <= hry <= u16::MAX,
    ensures
        0 <= mg * hry <= 0x1_0000_0000_0000,
        0 <= mg * hrx <= 0x1_0000_0000_0000,
        0 <= ng * hry <= 0x1_0000_0000_0000,
        0 <= ng * hrx <= 0x1_0000_0000_0000,
{
    assert(0 <= mg * hry <= 0x1_0000_0000_0000) by (nonlinear_arith)
        requires 0 <= mg <= u32::MAX, 0 <= hry <= u16::MAX;
    assert(0 <= mg * hrx <= 0x1_0000_0000_0000) by (nonlinear_arith)
        requires 0 <= mg <= u32::MAX, 0 <= hrx <= u16::MAX;
    assert(0 <= ng * hry <= 0x1_0000_0000_0000) by (nonlinear_arith)
        requires 0 <= ng <= u32::MAX, 0 <= hry <= u16::MAX;
    assert(0 <= ng * hrx <= 0x1_0000_0000_0000) by (nonlinear_arith)
        requires 0 <= ng <= u32::MAX, 0 <= hrx <= u16::MAX;
}

proof fn lemma_shift_bound(v: i64)
    requires
        -0x4_0000_0000_0000 <= v <= 0x4_0000_0000_0000,
    ensures
        -0x4_0000_0000_0000 <= v >> 8u64 <= 0x4_0000_0000_0000,
        (v >> 8u64) * 256 <= v < (v >> 8u64) * 256 + 256,
{
    assert(-0x4_0000_0000_0000 <= v <= 0x4_0000_0000_0000 ==> -0x4_0000_0000_0000 <= v >> 8u64 <= 0x4_0000_0000_0000
        && (v >> 8u64) * 256 <= v && v < (v >> 8u64) * 256 + 256) by (bit_vector);
}

/// Grid cell (mg, ng) lies at the grid position (HGX + mg * HRY + ng * HRX,
/// HGY + mg * HRX - ng * HRY), in 1/256 pixel, rounded down to whole pixels (6.6.5.2): the
/// column index ng steps along (HRX, -HRY) and the row index mg along (HRY, HRX).
pub proof fn law_cell_position(p: HalftoneRegionParams, mg: int, ng: int)
    requires
        0 <= mg <= u32::MAX,
        0 <= ng <= u32::MAX,
    ensures
        cell_x(p, mg, ng) * 256 <= p.hgx + mg * p.hry + ng * p.hrx < cell_x(p, mg, ng) * 256 + 256,
        cell_y(p, mg, ng) * 256 <= p.hgy + mg * p.hrx - ng * p.hry < cell_y(p, mg, ng) * 256 + 256,
{
    lemma_grid_products(mg, ng, p.hrx as int, p.hry as int);
    let vx = (p.hgx + mg * p.hry + ng * p.hrx) as i64;
    let vy = (p.hgy + mg * p.hrx - ng * p.hry) as i64;
    assert(vx == p.hgx + mg * p.hry + ng * p.hrx);
    assert(vy == p.hgy + mg * p.hrx - ng * p.hry);
    lemma_shift_bound(vx);
    lemma_shift_bound(vy);
}

/// Render a halftone region: fill with the default pixel, then place on the grid, cell
/// by cell, the pattern chosen by each cell's gray value (`gray_vals[ng][mg]`).
pub fn decode_halftone_region(
    params: &HalftoneRegionParams,
    image: &mut Jbig2Image,
    pdict: &PatternDict,
    gray_vals: &[Vec<u32>],
) -> (r: Result<(), Jbig2Error>)
    requires
        old(image).wf(),
        forall|i: int| 0 <= i < pdict.patterns@.len() ==> (#[trigger] pdict.patterns@[i]).wf(),
        pdict.patterns@.len() <= u32::MAX,
    ensures
        r is Ok,
        final(image).wf(),
        final(image).width == old(image).width,
        final(image).height == old(image).height,
        final(image).stride == old(image).stride,
        forall|px: int, py: int|
            #[trigger] final(image).spec_pixel(px, py) == ht_pixel(*params, *pdict, gray_vals@, *old(image), params.hgh as int, 0, px, py),
{
    let ghost img0 = *image;
    if params.hdefpixel {
        image.clear(1);
    }
    let n_patterns = pdict.patterns.len() as u32;
    let ghost gray = gray_vals@;
    let mut mg: u32 = 0;
    while mg < params.hgh
        invariant
            image.wf(),
            img0.wf(),
            image.width == img0.width,
            image.height == img0.height,
            image.stride == img0.stride,
            mg <= params.hgh,
            n_patterns == pdict.patterns@.len(),
            forall|i: int| 0 <= i < pdict.patterns@.len() ==> (#[trigger] pdict.patterns@[i]).wf(),
            gray == gray_vals@,
            forall|px: int, py: int| #[trigger] image.spec_pixel(px, py) == ht_pixel(*params, *pdict, gray, img0, mg as int, 0, px, py),
        decreases params.hgh - mg,
    {
        let mut ng: u32 = 0;
        while ng < params.hgw
            invariant
                image.wf(),
                img0.wf(),
                image.width == img0.width,
                image.height == img0.height,
                image.stride == img0.stride,
                mg < params.hgh,
                ng <= params.hgw,
                n_patterns == pdict.patterns@.len(),
                forall|i: int| 0 <= i < pdict.patterns@.len() ==> (#[trigger] pdict.patterns@[i]).wf(),
                gray == gray_vals@,
                forall|px: int, py: int| #[trigger] image.spec_pixel(px, py) == ht_pixel(*params, *pdict, gray, img0, mg as int, ng as int, px, py),
            decreases params.hgw - ng,
        {
            proof {
                lemma_grid_products(mg as int, ng as int, params.hrx as int, params.hry as int);
            }
            let sx: i64 = params.hgx as i64 + (mg as i64) * (params.hry as i64) + (ng as i64) * (params.hrx as i64);
            let sy: i64 = params.hgy as i64 + (mg as i64) * (params.hrx as i64) - (ng as i64) * (params.hry as i64);
            let x: i64 = sx >> 8u64;
            let y: i64 = sy >> 8u64;
            proof {
                lemma_shift_bound(sx);
                lemma_shift_bound(sy);
            }
            let skipped = params.henableskip && (x + pdict.hpw as i64 <= 0 || x >= image.width as i64 || y + pdict.hph as i64 <= 0 || y >= image.height as i64);
            let ghost before = *image;
            if !skipped {
                let mut gv: u32 = if (ng as usize) < gray_vals.len() && (mg as usize) < gray_vals[ng as usize].len() {
                    gray_vals[ng as usize][mg as usize]
                } else {
                    0
                };
                if gv >= n_patterns {
                    gv = if n_patterns > 0 { n_patterns - 1 } else { 0 };
                }
                if (gv as usize) < pdict.patterns.len() {
                    let pat = &pdict.patterns[gv as usize];
                    let _ = image.compose(pat, x as i32, y as i32, params.hcombop);
                }
            }
            proof {
                assert forall|px: int, py: int| #[trigger] image.spec_pixel(px, py) == ht_pixel(*params, *pdict, gray, img0, mg as int, ng + 1, px, py) by {
                    assert(before.spec_pixel(px, py) == ht_pixel(*params, *pdict, gray, img0, mg as int, ng as int, px, py));
                }
            }
            ng += 1;
        }
        proof {
            assert forall|px: int, py: int| #[trigger] image.spec_pixel(px, py) == ht_pixel(*params, *pdict, gray, img0, mg + 1, 0, px, py) by {
                assert(ht_pixel(*params, *pdict, gray, img0, mg + 1, 0, px, py) == ht_pixel(*params, *pdict, gray, img0, mg as int, params.hgw as int, px, py));
            }
        }
        mg += 1;
    }
    Ok(())
}

} // verus!
