//! What decoding a stream does, step by step: read the file header, then segment
//! headers and segment data as far as the bytes received reach, and handle each segment
//! (page information, regions, dictionaries, end of page or file). Decoding depends on
//! the bytes alone, so a stream fed in pieces decodes as it does when fed at once.

use vstd::prelude::*;
use crate::arith::spec_init;
use crate::bytes::{be_u16, be_u32};
use crate::decoder::{DecoderState, new_symbol_count, op_code, refused_type};
use crate::generic::{GenericRegionParams, RegionState, spec_generic_region, spec_stats_size};
use crate::header::has_magic;
use crate::image::{ComposeOp, ImageView, Jbig2Image, bit_of, byte_pos, compose_bit, composed_pixel_in, covered, lemma_fill_bits, lemma_pixel_index, pixel_in, resized_data, stride_of, law_resize_keeps_pixels};
use crate::mmr::mmr_start;
use crate::refinement::{RefinementRegionParams, spec_refinement_region, spec_refinement_stats_size};
use crate::huffman::spec_user_table;
use crate::mmr_region::{mmr_lines, mmr_result_byte};
use crate::page::{Page, PageState, blank_page, image_size_ok, page_info_read};
use crate::symbol_dict::SymbolDict;
use crate::text::{TextPhase, TextRegionParams, TextState, cat_lookup, instances_offset, phase_rank, place_step, s_step, dt_step, sym_code_len, text_from, text_params_read, text_start, initial_stript_step};
use crate::segment::{header_fields, header_size, page_assoc_size, ref_at, ref_size, referred_layout, segment_type_of, SegmentHeader, SegmentType};

verus! {

/// The value of a segment header.
pub struct HeaderV {
    pub number: u32,
    pub flags: u8,
    pub seg_type: Option<SegmentType>,
    pub refs: Seq<u32>,
    pub page: u32,
    pub data_length: u32,
}

/// The value of a parsed segment header.
pub open spec fn header_view(h: SegmentHeader) -> HeaderV {
    HeaderV {
        number: h.number,
        flags: h.flags,
        seg_type: h.seg_type,
        refs: h.referred_to_segments@,
        page: h.page_association,
        data_length: h.data_length,
    }
}

/// The segment header at the start of `d` (7.2), once all its bytes are there.
pub open spec fn parsed_header(d: Seq<u8>) -> HeaderV {
    let (count, off) = referred_layout(d);
    let size = ref_size(be_u32(d, 0));
    let pa_off = off + count * size;
    HeaderV {
        number: be_u32(d, 0),
        flags: d[4],
        seg_type: segment_type_of(d[4] & 63),
        refs: Seq::new(count as nat, |i: int| ref_at(d, off + i * size, size)),
        page: if page_assoc_size(d[4]) == 4 {
            be_u32(d, pa_off)
        } else {
            d[pa_off] as u32
        },
        data_length: be_u32(d, pa_off + page_assoc_size(d[4])),
    }
}

/// A header parsed from `d` has the value `parsed_header(d)`.
pub proof fn lemma_header_view(d: Seq<u8>, h: SegmentHeader)
    requires
        header_fields(d, h),
    ensures
        header_view(h) == parsed_header(d),
{
}

/// The pixels of an image: `pix` is 0 outside the `width` x `height` rectangle.
#[verifier::ext_equal]
pub struct ImgP {
    pub width: u32,
    pub height: u32,
    pub pix: spec_fn(int, int) -> u8,
}

/// The pixels of `i`.
pub open spec fn img_p(i: Jbig2Image) -> ImgP {
    ImgP { width: i.width, height: i.height, pix: |x: int, y: int| i.spec_pixel(x, y) }
}

/// A page with its image as pixels.
#[verifier::ext_equal]
pub struct PageP {
    pub state: PageState,
    pub number: u32,
    pub width: u32,
    pub height: u32,
    pub x_resolution: u32,
    pub y_resolution: u32,
    pub flags: u8,
    pub striped: bool,
    pub stripe_size: u16,
    pub end_row: u32,
    pub image: Option<ImgP>,
}

/// The value of a page, its image as pixels.
pub open spec fn page_p(p: Page) -> PageP {
    PageP {
        state: p.state,
        number: p.number,
        width: p.width,
        height: p.height,
        x_resolution: p.x_resolution,
        y_resolution: p.y_resolution,
        flags: p.flags,
        striped: p.striped,
        stripe_size: p.stripe_size,
        end_row: p.end_row,
        image: match p.image {
            Some(i) => Some(img_p(i)),
            None => None,
        },
    }
}

/// The pages, the index of the current page, and the numbers and symbol dictionaries of
/// the global segments.
pub struct DocP {
    pub pages: Seq<PageP>,
    pub current: int,
    pub gnums: Seq<u32>,
    pub gdicts: Seq<Option<Seq<Option<ImageView>>>>,
}

/// What handling a segment left: the pages and dictionaries, and whether the segment
/// ended the file.
pub struct Handled {
    pub doc: DocP,
    pub dicts: Seq<Option<Seq<Option<ImageView>>>>,
    pub eof: bool,
}

/// Index of the first page that is `Free`, or `pages.len()` if none.
pub open spec fn first_free_p(pages: Seq<PageP>) -> int
    decreases pages.len(),
{
    if pages.len() == 0 {
        0
    } else if pages[0].state == PageState::Free {
        0
    } else {
        1 + first_free_p(pages.subrange(1, pages.len() as int))
    }
}

/// Index of the first number `n` in `nums`, or `nums.len()` if none.
pub open spec fn first_num(nums: Seq<u32>, n: u32) -> int
    decreases nums.len(),
{
    if nums.len() == 0 {
        0
    } else if nums[0] == n {
        0
    } else {
        1 + first_num(nums.subrange(1, nums.len() as int), n)
    }
}

/// The page after reading page information `d` for page `n` (7.4.8): `None` when the
/// segment is refused.
pub open spec fn page_info_p(old: PageP, n: u32, d: Seq<u8>) -> Option<PageP> {
    if d.len() < 19 || d[16] & 0x80 != 0 {
        None
    } else {
        let flags = d[16];
        let raw = be_u16(d, 17);
        let height = be_u32(d, 4);
        let width = be_u32(d, 0);
        let striped = raw & 0x8000 != 0 || height == 0xFFFFFFFF;
        let stripe_size = if raw & 0x8000 != 0 {
            raw & 0x7FFF
        } else if height == 0xFFFFFFFF {
            0x7FFFu16
        } else {
            0u16
        };
        let img_height = if height == 0xFFFFFFFF { stripe_size as u32 } else { height };
        if !image_size_ok(width, img_height) {
            None
        } else {
            Some(
                PageP {
                    state: PageState::New,
                    number: n,
                    width,
                    height,
                    x_resolution: be_u32(d, 8),
                    y_resolution: be_u32(d, 12),
                    flags,
                    striped,
                    stripe_size,
                    end_row: 0,
                    image: Some(
                        ImgP {
                            width,
                            height: img_height,
                            pix: |x: int, y: int|
                                if flags & 4 != 0 && 0 <= x < width && 0 <= y < img_height {
                                    1u8
                                } else {
                                    0u8
                                },
                        },
                    ),
                },
            )
        }
    }
}

/// The page after composing the region image `src` onto it at (x, y) with `op`; a
/// striped page of unknown height first grows to hold the region, with the default
/// pixel. `None` when the page has no image or cannot grow.
pub open spec fn add_result_p(p: PageP, src: ImgP, x: u32, y: u32, op: ComposeOp) -> Option<PageP> {
    match p.image {
        None => None,
        Some(img) => {
            let grow = p.striped && p.height == 0xFFFFFFFF;
            let need = y as int + src.height as int;
            let fill: u8 = if p.flags & 4 != 0 { 1 } else { 0 };
            if grow && need > u32::MAX {
                None
            } else if grow && img.height < need && !image_size_ok(img.width, need as u32) {
                None
            } else {
                let h: int = if grow && img.height < need { need } else { img.height as int };
                let w = img.width as int;
                let dx = (x as i32) as int;
                let dy = (y as i32) as int;
                Some(
                    PageP {
                        image: Some(
                            ImgP {
                                width: img.width,
                                height: h as u32,
                                pix: |px: int, py: int|
                                    {
                                        let base: u8 = if 0 <= px < w && 0 <= py < h {
                                            if py < img.height { (img.pix)(px, py) } else { fill }
                                        } else {
                                            0
                                        };
                                        if 0 <= px < w && 0 <= py < h && 0 <= px - dx < src.width && 0 <= py - dy
                                            < src.height {
                                            compose_bit(op, base, (src.pix)(px - dx, py - dy))
                                        } else {
                                            base
                                        }
                                    },
                            },
                        ),
                        ..p
                    },
                )
            }
        },
    }
}

/// The generic region parameters read from the data `d` of a generic region segment:
/// flags at byte 17 and adaptive template positions after it.
pub open spec fn gparams_read(d: Seq<u8>, p: GenericRegionParams) -> bool {
    let flags = d[17];
    let mmr = flags & 1 != 0;
    let t = (flags >> 1u8) & 3;
    let n: int = if mmr { 0 } else if t == 0 { 8 } else { 2 };
    &&& p.mmr == mmr
    &&& p.gb_template == t
    &&& p.tpgdon == ((flags >> 3u8) & 1 != 0)
    &&& !p.use_skip
    &&& forall|i: int| 0 <= i < 8 ==> p.gbat[i] == if i < n { d[18 + i] as i8 } else { 0i8 }
}

/// The region image decoded from the data `d` of an immediate generic region segment,
/// with where and how it goes on the page; `None` when decoding fails.
pub open spec fn generic_region_p(d: Seq<u8>) -> Option<(ImgP, u32, u32, ComposeOp)> {
    if d.len() < 18 {
        None
    } else {
        let w = be_u32(d, 0);
        let h = be_u32(d, 4);
        let x = be_u32(d, 8);
        let y = be_u32(d, 12);
        let op = op_code(d[16] & 7);
        let flags = d[17];
        let mmr = flags & 1 != 0;
        let t = (flags >> 1u8) & 3;
        let n: int = if mmr { 0 } else if t == 0 { 8 } else { 2 };
        if 18 + n > d.len() || !image_size_ok(w, h) {
            None
        } else {
            let region = d.subrange(18 + n, d.len() as int);
            let s = stride_of(w as int);
            let zeros = Seq::new((s * h) as nat, |i: int| 0u8);
            if mmr {
                if region.len() > 0x0FFF_FFFF {
                    None
                } else {
                    match mmr_lines(region, w, s as nat, h as int, mmr_start(region), None, 0, Seq::empty()) {
                        None => None,
                        Some((r2, lines, eofb)) => Some(
                            (
                                ImgP {
                                    width: w,
                                    height: h,
                                    pix: |px: int, py: int|
                                        if 0 <= px < w && 0 <= py < h {
                                            bit_of(mmr_result_byte(zeros, s, lines, eofb, py, px / 8), px % 8)
                                        } else {
                                            0u8
                                        },
                                },
                                x,
                                y,
                                op,
                            ),
                        ),
                    }
                }
            } else if region.len() == 0 {
                None
            } else {
                let p = choose|p: GenericRegionParams| gparams_read(d, p);
                match spec_generic_region(
                    region,
                    spec_init(region).unwrap(),
                    Seq::new(spec_stats_size(t) as nat, |i: int| 0u8),
                    zeros,
                    p,
                    w as int,
                    h as int,
                    s,
                ) {
                    None => None,
                    Some(res) => Some(
                        (
                            ImgP {
                                width: w,
                                height: h,
                                pix: |px: int, py: int| pixel_in(w as int, h as int, s, res.data, px, py),
                            },
                            x,
                            y,
                            op,
                        ),
                    ),
                }
            }
        }
    }
}

/// The refinement parameters of an immediate refinement region segment with data `d`
/// (7.4.7.2), up to the reference bitmap: the page region at the segment's position is
/// refined, so the reference is offset by minus that position.
pub open spec fn rparams_read(d: Seq<u8>, p: RefinementRegionParams) -> bool {
    let t = d[17] & 1;
    &&& p.gr_template == t
    &&& p.tpgron == (d[17] & 2 != 0)
    &&& p.reference_dx == 0i32.wrapping_sub(be_u32(d, 8) as i32)
    &&& p.reference_dy == 0i32.wrapping_sub(be_u32(d, 12) as i32)
    &&& forall|i: int| 0 <= i < 4 ==> p.grat[i] == if t == 0 { d[18 + i] as i8 } else { 0i8 }
}

/// The region image decoded from the data `d` of an immediate refinement region segment
/// that refines the region of page `pg` at its position, with where and how it goes on
/// the page; `None` when decoding fails.
pub open spec fn refine_region_p(d: Seq<u8>, pg: PageP) -> Option<(ImgP, u32, u32, ComposeOp)> {
    if d.len() < 18 {
        None
    } else {
        let w = be_u32(d, 0);
        let h = be_u32(d, 4);
        let x = be_u32(d, 8);
        let y = be_u32(d, 12);
        let op = op_code(d[16] & 7);
        let t = d[17] & 1;
        let n: int = if t == 0 { 4 } else { 0 };
        if 18 + n > d.len() || !image_size_ok(w, h) {
            None
        } else {
            match pg.image {
                None => None,
                Some(pi) => {
                    let region = d.subrange(18 + n, d.len() as int);
                    if region.len() == 0 {
                        None
                    } else {
                        let r = choose|r: Jbig2Image| r.wf() && img_p(r) == pi;
                        let p = RefinementRegionParams { reference: r, ..choose|p: RefinementRegionParams| rparams_read(d, p) };
                        let s = stride_of(w as int);
                        let st = RegionState {
                            regs: spec_init(region).unwrap(),
                            stats: Seq::new(spec_refinement_stats_size(t) as nat, |i: int| 0u8),
                            data: Seq::new((s * h) as nat, |i: int| 0u8),
                        };
                        match spec_refinement_region(region, st, p, w as int, h as int, s) {
                            None => None,
                            Some(res) => Some(
                                (
                                    ImgP {
                                        width: w,
                                        height: h,
                                        pix: |px: int, py: int| pixel_in(w as int, h as int, s, res.data, px, py),
                                    },
                                    x,
                                    y,
                                    op,
                                ),
                            ),
                        }
                    }
                },
            }
        }
    }
}

/// A dictionary of `n` empty slots.
pub open spec fn empty_dict(n: nat) -> Seq<Option<ImageView>> {
    Seq::new(n, |j: int| None::<ImageView>)
}

/// The numbers of segment headers.
pub open spec fn head_numbers(heads: Seq<HeaderV>) -> Seq<u32> {
    heads.map_values(|h: HeaderV| head_number(h))
}

/// The number of a segment header.
pub open spec fn head_number(h: HeaderV) -> u32 {
    h.number
}

/// The symbol dictionary of the segment numbered `n`: the first such segment of the
/// stream, else the first such global segment; `None` when there is none or it holds no
/// dictionary.
pub open spec fn dict_of_ref(
    nums: Seq<u32>,
    dicts: Seq<Option<Seq<Option<ImageView>>>>,
    gnums: Seq<u32>,
    gdicts: Seq<Option<Seq<Option<ImageView>>>>,
    n: u32,
) -> Option<Seq<Option<ImageView>>> {
    let k = first_num(nums, n);
    if k < nums.len() {
        dicts[k]
    } else {
        let g = first_num(gnums, n);
        if g < gnums.len() {
            gdicts[g]
        } else {
            None
        }
    }
}

/// The dictionaries of the referred-to segments `refs`, in order, those without a
/// dictionary left out.
pub open spec fn text_dicts(
    nums: Seq<u32>,
    dicts: Seq<Option<Seq<Option<ImageView>>>>,
    gnums: Seq<u32>,
    gdicts: Seq<Option<Seq<Option<ImageView>>>>,
    refs: Seq<u32>,
) -> Seq<Seq<Option<ImageView>>>
    decreases refs.len(),
{
    if refs.len() == 0 {
        Seq::empty()
    } else {
        let prev = text_dicts(nums, dicts, gnums, gdicts, refs.drop_last());
        match dict_of_ref(nums, dicts, gnums, gdicts, refs.last()) {
            Some(dv) => prev.push(dv),
            None => prev,
        }
    }
}

/// The number of symbols of the dictionaries `dv`, in 32-bit wrapping arithmetic.
pub open spec fn wrap_total(dv: Seq<Seq<Option<ImageView>>>) -> u32
    decreases dv.len(),
{
    if dv.len() == 0 {
        0
    } else {
        wrap_total(dv.drop_last()).wrapping_add(dv.last().len() as u32)
    }
}

/// The views of dictionaries.
pub open spec fn dict_views(ds: Seq<&SymbolDict>) -> Seq<Seq<Option<ImageView>>> {
    ds.map_values(|sd: &SymbolDict| sd@)
}

/// The region image decoded from the data `d` of an immediate text region segment with
/// the dictionaries `dv`, with where and how it goes on the page; `Some(None)` when the
/// region parameters are incomplete (nothing is drawn), `None` when decoding fails.
pub open spec fn text_region_p(d: Seq<u8>, dv: Seq<Seq<Option<ImageView>>>) -> Option<
    Option<(ImgP, u32, u32, ComposeOp)>,
> {
    if d.len() < 17 {
        None
    } else {
        let w = be_u32(d, 0);
        let h = be_u32(d, 4);
        let x = be_u32(d, 8);
        let y = be_u32(d, 12);
        let op = op_code(d[16] & 7);
        let rest = d.subrange(17, d.len() as int);
        if rest.len() < 2 || rest.len() < instances_offset(be_u16(rest, 0)) + 4 {
            Some(None)
        } else {
            let n = instances_offset(be_u16(rest, 0)) + 4;
            let p = choose|p: TextRegionParams| text_params_read(rest, p, n);
            let region = rest.subrange(n, rest.len() as int);
            let nsyms = wrap_total(dv);
            if !image_size_ok(w, h) {
                None
            } else if !p.sbhuff && nsyms > 0 {
                let cl = sym_code_len(nsyms);
                if region.len() == 0 || cl > 30 {
                    None
                } else {
                    let ds = choose|ds: Seq<&SymbolDict>| dict_views(ds) == dv;
                    let pix0 = |px: int, py: int|
                        if p.sbdefpixel && 0 <= px < w && 0 <= py < h {
                            1u8
                        } else {
                            0u8
                        };
                    let fin = text_from(
                        region,
                        p,
                        ds,
                        w as int,
                        h as int,
                        cl,
                        initial_stript_step(region, p, text_start(spec_init(region).unwrap(), cl, pix0)),
                        TextPhase::Strip,
                        0,
                    );
                    Some(Some((ImgP { width: w, height: h, pix: fin.pix }, x, y, op)))
                }
            } else {
                Some(Some((ImgP { width: w, height: h, pix: |px: int, py: int| 0u8 }, x, y, op)))
            }
        }
    }
}

/// Handle segment `i` of the stream, whose data is `datas[i]` (7.4): update the pages and
/// dictionaries; `None` when the segment is refused or cannot be decoded.
#[verifier::opaque]
pub open spec fn handle_segment(
    heads: Seq<HeaderV>,
    datas: Seq<Seq<u8>>,
    dicts: Seq<Option<Seq<Option<ImageView>>>>,
    i: int,
    doc: DocP,
) -> Option<Handled> {
    let hd = heads[i];
    let data = datas[i];
    let t = hd.seg_type;
    let cur = doc.current;
    let same = Handled { doc, dicts, eof: false };
    if t == Some(SegmentType::PageInformation) {
        let k = first_free_p(doc.pages);
        let pages1 = if k < doc.pages.len() {
            doc.pages
        } else {
            doc.pages.push(page_p(blank_page()))
        };
        match page_info_p(pages1[k], hd.page, data) {
            None => None,
            Some(pg) => Some(Handled { doc: DocP { pages: pages1.update(k, pg), current: k, ..doc }, dicts, eof: false }),
        }
    } else if t == Some(SegmentType::EndOfPage) {
        Some(
            Handled {
                doc: DocP { pages: doc.pages.update(cur, PageP { state: PageState::Complete, ..doc.pages[cur] }), ..doc },
                ..same
            },
        )
    } else if t == Some(SegmentType::EndOfStripe) {
        if data.len() >= 4 {
            Some(
                Handled {
                    doc: DocP { pages: doc.pages.update(cur, PageP { end_row: be_u32(data, 0), ..doc.pages[cur] }), ..doc },
                    ..same
                },
            )
        } else {
            Some(same)
        }
    } else if t == Some(SegmentType::EndOfFile) {
        Some(Handled { eof: true, ..same })
    } else if t == Some(SegmentType::ImmediateGenericRegion) || t == Some(SegmentType::ImmediateLosslessGenericRegion) {
        match generic_region_p(data) {
            None => None,
            Some((img, x, y, op)) => match add_result_p(doc.pages[cur], img, x, y, op) {
                None => None,
                Some(pg) => Some(Handled { doc: DocP { pages: doc.pages.update(cur, pg), ..doc }, ..same }),
            },
        }
    } else if t == Some(SegmentType::SymbolDictionary) {
        match new_symbol_count(data) {
            None => Some(same),
            Some(n) => Some(Handled { dicts: dicts.update(i, Some(empty_dict(n as nat))), ..same }),
        }
    } else if t == Some(SegmentType::ImmediateTextRegion) || t == Some(SegmentType::ImmediateLosslessTextRegion) {
        let dv = text_dicts(head_numbers(heads), dicts, doc.gnums, doc.gdicts, hd.refs);
        match text_region_p(data, dv) {
            None => None,
            Some(None) => Some(same),
            Some(Some((img, x, y, op))) => match add_result_p(doc.pages[cur], img, x, y, op) {
                None => None,
                Some(pg) => Some(Handled { doc: DocP { pages: doc.pages.update(cur, pg), ..doc }, ..same }),
            },
        }
    } else if t == Some(SegmentType::ImmediateGenericRefinementRegion) || t == Some(
        SegmentType::ImmediateLosslessGenericRefinementRegion,
    ) {
        if hd.refs.len() > 0 {
            None
        } else {
            match refine_region_p(data, doc.pages[cur]) {
                None => None,
                Some((img, x, y, op)) => match add_result_p(doc.pages[cur], img, x, y, op) {
                    None => None,
                    Some(pg) => Some(Handled { doc: DocP { pages: doc.pages.update(cur, pg), ..doc }, ..same }),
                },
            }
        }
    } else if t == Some(SegmentType::CodeTable) {
        if table_ok(data) {
            Some(same)
        } else {
            None
        }
    } else if refused_type(t) {
        None
    } else {
        Some(same)
    }
}

/// The data of a code table segment hold a valid table (B.2), of a size whose bit count
/// fits in `usize`.
pub open spec fn table_ok(data: Seq<u8>) -> bool {
    data.len() * 8 <= usize::MAX && spec_user_table(data) is Some
}

/// Index of the first page that is `Complete`, or `pages.len()` if none.
pub open spec fn first_complete_p(pages: Seq<PageP>) -> int
    decreases pages.len(),
{
    if pages.len() == 0 {
        0
    } else if pages[0].state == PageState::Complete {
        0
    } else {
        1 + first_complete_p(pages.subrange(1, pages.len() as int))
    }
}

/// The number of pages that are `Complete`.
pub open spec fn count_complete_p(pages: Seq<PageP>) -> nat
    decreases pages.len(),
{
    if pages.len() == 0 {
        0
    } else {
        count_complete_p(pages.subrange(1, pages.len() as int)) + if pages[0].state == PageState::Complete {
            1nat
        } else {
            0nat
        }
    }
}

/// The first complete page is complete, and there is one exactly when some page is
/// complete.
pub proof fn lemma_first_complete_p(pages: Seq<PageP>)
    ensures
        0 <= first_complete_p(pages) <= pages.len(),
        first_complete_p(pages) < pages.len() ==> pages[first_complete_p(pages)].state == PageState::Complete,
        first_complete_p(pages) == pages.len() <==> count_complete_p(pages) == 0,
    decreases pages.len(),
{
    if pages.len() > 0 {
        lemma_first_complete_p(pages.subrange(1, pages.len() as int));
    }
}

/// Marking a complete page returned leaves one complete page fewer.
pub proof fn lemma_count_complete_p_update(pages: Seq<PageP>, i: int, p: PageP)
    requires
        0 <= i < pages.len(),
        pages[i].state == PageState::Complete,
        p.state != PageState::Complete,
    ensures
        count_complete_p(pages.update(i, p)) + 1 == count_complete_p(pages),
    decreases pages.len(),
{
    let rest = pages.subrange(1, pages.len() as int);
    let up = pages.update(i, p);
    assert(up.subrange(1, up.len() as int) =~= if i == 0 {
        rest
    } else {
        rest.update(i - 1, p)
    });
    if i > 0 {
        lemma_count_complete_p_update(rest, i - 1, p);
    }
}

/// The images the decoder hands out, in order, from pages `pages`: each time the first
/// complete page, which becomes returned, until there is none or it has no image.
pub open spec fn handed_out(pages: Seq<PageP>) -> Seq<ImgP>
    decreases count_complete_p(pages),
{
    let k = first_complete_p(pages);
    if k < 0 || k >= pages.len() {
        Seq::empty()
    } else {
        match pages[k].image {
            None => Seq::empty(),
            Some(img) => {
                proof {
                    lemma_first_complete_p(pages);
                    lemma_count_complete_p_update(pages, k, PageP { state: PageState::Returned, ..pages[k] });
                }
                seq![img] + handed_out(pages.update(k, PageP { state: PageState::Returned, ..pages[k] }))
            },
        }
    }
}

/// The pages after handing out a page: the first complete page becomes returned.
pub open spec fn take_page(pages: Seq<PageP>) -> Seq<PageP> {
    let k = first_complete_p(pages);
    if 0 <= k < pages.len() {
        pages.update(k, PageP { state: PageState::Returned, ..pages[k] })
    } else {
        pages
    }
}

/// The pages after handing out `n` pages one after the other.
pub open spec fn take_pages(pages: Seq<PageP>, n: nat) -> Seq<PageP>
    decreases n,
{
    if n == 0 {
        pages
    } else {
        take_page(take_pages(pages, (n - 1) as nat))
    }
}

/// Handing out pages one at a time gives the images `handed_out` lists, in order: after
/// `n` pages are handed out, the images still to come are those of `handed_out` from the
/// `n`-th on, and the next one handed out is its `n`-th image.
pub proof fn law_pages_in_order(pages: Seq<PageP>, n: nat)
    requires
        n <= handed_out(pages).len(),
    ensures
        handed_out(take_pages(pages, n)) == handed_out(pages).skip(n as int),
    decreases n,
{
    if n == 0 {
        assert(handed_out(pages).skip(0) =~= handed_out(pages));
    } else {
        law_pages_in_order(pages, (n - 1) as nat);
        let q = take_pages(pages, (n - 1) as nat);
        let hq = handed_out(q);
        assert(hq.len() > 0);
        let k = first_complete_p(q);
        lemma_first_complete_p(q);
        assert(hq == seq![q[k].image.unwrap()] + handed_out(take_page(q)));
        assert(handed_out(take_page(q)) =~= hq.drop_first());
        assert(handed_out(pages).skip(n as int) =~= handed_out(pages).skip(n - 1).drop_first());
    }
}

/// Where decoding of a stream stands: the decoder state, the bytes not yet used, the
/// headers, data and symbol dictionaries of the segments read, how many segments have
/// been handled, and the pages.
pub struct Frame {
    pub state: DecoderState,
    pub buf: Seq<u8>,
    pub heads: Seq<HeaderV>,
    pub datas: Seq<Seq<u8>>,
    pub dicts: Seq<Option<Seq<Option<ImageView>>>>,
    pub idx: int,
    pub doc: DocP,
}

/// The framing of an embedded stream before any byte: at a segment header.
pub open spec fn embedded_start() -> Frame {
    Frame {
        state: DecoderState::SequentialHeader,
        buf: Seq::empty(),
        heads: Seq::empty(),
        datas: Seq::empty(),
        dicts: Seq::empty(),
        idx: 0,
        doc: DocP { pages: seq![page_p(blank_page())], current: 0, gnums: Seq::empty(), gdicts: Seq::empty() },
    }
}

/// The framing of a whole file before any byte: at the file header.
pub open spec fn file_start() -> Frame {
    Frame { state: DecoderState::FileHeader, ..embedded_start() }
}

/// The frame with `b` appended to the bytes not yet used.
pub open spec fn appended(f: Frame, b: Seq<u8>) -> Frame {
    Frame { buf: f.buf + b, ..f }
}

/// The state after the file header with flags `flags`.
pub open spec fn after_file_header(flags: u8) -> DecoderState {
    if flags & 1 != 0 {
        DecoderState::SequentialHeader
    } else {
        DecoderState::RandomHeaders
    }
}

/// The state after reading the header of a segment of type `t` in state `st`.
pub open spec fn after_segment_header(st: DecoderState, t: Option<SegmentType>) -> DecoderState {
    if st == DecoderState::RandomHeaders {
        if t == Some(SegmentType::EndOfFile) {
            DecoderState::RandomBodies
        } else {
            DecoderState::RandomHeaders
        }
    } else {
        DecoderState::SequentialBody
    }
}

/// The state after handling the data of segment `idx - 1` in state `st` (`eof` when it
/// ended the file), with `n` segment headers read.
pub open spec fn after_segment_data(st: DecoderState, eof: bool, idx: int, n: int) -> DecoderState {
    if eof {
        DecoderState::Eof
    } else if st == DecoderState::RandomBodies {
        if idx >= n {
            DecoderState::Eof
        } else {
            DecoderState::RandomBodies
        }
    } else {
        DecoderState::SequentialHeader
    }
}

/// The number of data bytes segment `idx` takes from `buf`: its length, or everything
/// received when the length is unknown.
pub open spec fn data_need(f: Frame) -> int {
    if f.heads[f.idx].data_length == 0xFFFFFFFF {
        f.buf.len() as int
    } else {
        f.heads[f.idx].data_length as int
    }
}

/// One step of the framing: read the file header, a segment header or the data of the
/// next segment; `None` when the bytes received do not reach, at the end of the file, or
/// when a header is refused.
pub open spec fn frame_step(f: Frame) -> Option<Frame> {
    let d = f.buf;
    if f.state == DecoderState::FileHeader {
        if d.len() < 9 || !has_magic(d) || d[8] & 0x0C != 0 || (d[8] & 2 == 0 && d.len() < 13) {
            None
        } else {
            let n: int = if d[8] & 2 == 0 { 13 } else { 9 };
            Some(Frame { state: after_file_header(d[8]), buf: d.subrange(n, d.len() as int), ..f })
        }
    } else if f.state == DecoderState::SequentialHeader || f.state == DecoderState::RandomHeaders {
        if d.len() < 11 || be_u32(d, 0) == 0xFFFFFFFF || d.len() < header_size(d) {
            None
        } else {
            let h = parsed_header(d);
            Some(
                Frame {
                    state: after_segment_header(f.state, h.seg_type),
                    buf: d.subrange(header_size(d), d.len() as int),
                    heads: f.heads.push(h),
                    datas: f.datas.push(Seq::empty()),
                    dicts: f.dicts.push(None),
                    idx: f.idx,
                    doc: f.doc,
                },
            )
        }
    } else if f.state == DecoderState::SequentialBody || f.state == DecoderState::RandomBodies {
        if f.idx < 0 || f.idx >= f.heads.len() {
            Some(Frame { state: DecoderState::Eof, ..f })
        } else if d.len() < data_need(f) {
            None
        } else {
            let need = data_need(f);
            let datas = f.datas.update(f.idx, d.subrange(0, need));
            match handle_segment(f.heads, datas, f.dicts, f.idx, f.doc) {
                None => None,
                Some(hd) => Some(
                    Frame {
                        state: after_segment_data(f.state, hd.eof, f.idx + 1, f.heads.len() as int),
                        buf: d.subrange(need, d.len() as int),
                        heads: f.heads,
                        datas,
                        dicts: hd.dicts,
                        idx: f.idx + 1,
                        doc: hd.doc,
                    },
                ),
            }
        }
    } else {
        None
    }
}

/// `v` when it is not negative, else 0.
pub open spec fn nonneg(v: int) -> int {
    if v >= 0 {
        v
    } else {
        0
    }
}

/// A measure of the framing work left: every step lowers it.
pub open spec fn frame_work(f: Frame) -> int {
    4 * f.buf.len() + 2 * nonneg(f.heads.len() - f.idx) + if f.state == DecoderState::SequentialHeader || f.state
        == DecoderState::RandomHeaders || f.state == DecoderState::SequentialBody || f.state
        == DecoderState::RandomBodies {
        1int
    } else {
        0int
    }
}

/// Every step of the framing lowers its measure.
pub proof fn lemma_step_decreases(f: Frame)
    ensures
        frame_step(f) matches Some(g) ==> 0 <= frame_work(g) < frame_work(f),
{
    if f.state == DecoderState::SequentialHeader || f.state == DecoderState::RandomHeaders {
        let d = f.buf;
        if d.len() >= 11 {
            let (count, off) = referred_layout(d);
            assert(count * ref_size(be_u32(d, 0)) >= 0) by (nonlinear_arith)
                requires
                    count >= 0,
                    ref_size(be_u32(d, 0)) >= 1,
            ;
        }
    }
}

/// The frame where the framing stops: steps are taken while they can be.
pub open spec fn frame_final(f: Frame) -> Frame
    decreases frame_work(f),
{
    match frame_step(f) {
        None => f,
        Some(g) => {
            proof {
                lemma_step_decreases(f);
            }
            frame_final(g)
        },
    }
}

/// The framing from `f` ends where the framing from its next step ends; it ends at `f`
/// when no step can be taken.
pub proof fn lemma_final_step(f: Frame)
    ensures
        frame_step(f) matches Some(g) ==> frame_final(f) == frame_final(g),
        frame_step(f) is None ==> frame_final(f) == f,
{
}

/// Handling page information: the first free page (a new one when none is free) reads
/// it and becomes current.
pub proof fn lemma_handle_page_info(
    heads: Seq<HeaderV>,
    datas: Seq<Seq<u8>>,
    dicts: Seq<Option<Seq<Option<ImageView>>>>,
    i: int,
    doc: DocP,
)
    requires
        heads[i].seg_type == Some(SegmentType::PageInformation),
    ensures
        handle_segment(heads, datas, dicts, i, doc) == ({
            let k = first_free_p(doc.pages);
            let pages1 = if k < doc.pages.len() {
                doc.pages
            } else {
                doc.pages.push(page_p(blank_page()))
            };
            match page_info_p(pages1[k], heads[i].page, datas[i]) {
                None => None,
                Some(pg) => Some(Handled { doc: DocP { pages: pages1.update(k, pg), current: k, ..doc }, dicts, eof: false }),
            }
        }),
{
    reveal(handle_segment);
}

/// Handling the segments that only mark the current page, end the file, or change
/// nothing, and refusing the unsupported ones.
pub proof fn lemma_handle_control(
    heads: Seq<HeaderV>,
    datas: Seq<Seq<u8>>,
    dicts: Seq<Option<Seq<Option<ImageView>>>>,
    i: int,
    doc: DocP,
)
    ensures
        ({
            let t = heads[i].seg_type;
            let cur = doc.current;
            let same = Handled { doc, dicts, eof: false };
            let r = handle_segment(heads, datas, dicts, i, doc);
            &&& t == Some(SegmentType::EndOfPage) ==> r == Some(
                Handled {
                    doc: DocP { pages: doc.pages.update(cur, PageP { state: PageState::Complete, ..doc.pages[cur] }), ..doc },
                    ..same
                },
            )
            &&& t == Some(SegmentType::EndOfStripe) ==> r == if datas[i].len() >= 4 {
                Some(
                    Handled {
                        doc: DocP {
                            pages: doc.pages.update(cur, PageP { end_row: be_u32(datas[i], 0), ..doc.pages[cur] }),
                            ..doc
                        },
                        ..same
                    },
                )
            } else {
                Some(same)
            }
            &&& t == Some(SegmentType::EndOfFile) ==> r == Some(Handled { eof: true, ..same })
            &&& refused_type(t) ==> r is None
            &&& t != Some(SegmentType::CodeTable) && t != Some(SegmentType::ImmediateGenericRefinementRegion) && t
                != Some(SegmentType::ImmediateLosslessGenericRefinementRegion) && t != Some(SegmentType::PageInformation) && t != Some(SegmentType::EndOfPage) && t != Some(
                SegmentType::EndOfStripe,
            ) && t != Some(SegmentType::EndOfFile) && t != Some(SegmentType::ImmediateGenericRegion) && t != Some(
                SegmentType::ImmediateLosslessGenericRegion,
            ) && t != Some(SegmentType::SymbolDictionary) && t != Some(SegmentType::ImmediateTextRegion) && t
                != Some(SegmentType::ImmediateLosslessTextRegion) && !refused_type(t) ==> r == Some(same)
        }),
{
    reveal(handle_segment);
}

/// Handling an immediate generic region: decode it and compose it onto the current page.
pub proof fn lemma_handle_generic(
    heads: Seq<HeaderV>,
    datas: Seq<Seq<u8>>,
    dicts: Seq<Option<Seq<Option<ImageView>>>>,
    i: int,
    doc: DocP,
)
    requires
        heads[i].seg_type == Some(SegmentType::ImmediateGenericRegion) || heads[i].seg_type == Some(
            SegmentType::ImmediateLosslessGenericRegion,
        ),
    ensures
        handle_segment(heads, datas, dicts, i, doc) == match generic_region_p(datas[i]) {
            None => None,
            Some((img, x, y, op)) => match add_result_p(doc.pages[doc.current], img, x, y, op) {
                None => None,
                Some(pg) => Some(Handled { doc: DocP { pages: doc.pages.update(doc.current, pg), ..doc }, dicts, eof: false }),
            },
        },
{
    reveal(handle_segment);
}

/// Handling an immediate refinement region: refine the page region at its position and
/// compose the result onto the current page; a region that refers to other segments is
/// refused.
pub proof fn lemma_handle_refine(
    heads: Seq<HeaderV>,
    datas: Seq<Seq<u8>>,
    dicts: Seq<Option<Seq<Option<ImageView>>>>,
    i: int,
    doc: DocP,
)
    requires
        heads[i].seg_type == Some(SegmentType::ImmediateGenericRefinementRegion) || heads[i].seg_type == Some(
            SegmentType::ImmediateLosslessGenericRefinementRegion,
        ),
    ensures
        handle_segment(heads, datas, dicts, i, doc) == if heads[i].refs.len() > 0 {
            None
        } else {
            match refine_region_p(datas[i], doc.pages[doc.current]) {
                None => None,
                Some((img, x, y, op)) => match add_result_p(doc.pages[doc.current], img, x, y, op) {
                    None => None,
                    Some(pg) => Some(
                        Handled { doc: DocP { pages: doc.pages.update(doc.current, pg), ..doc }, dicts, eof: false },
                    ),
                },
            }
        },
{
    reveal(handle_segment);
}

/// Handling a region or dictionary segment never ends the file.
pub proof fn lemma_region_no_eof(
    heads: Seq<HeaderV>,
    datas: Seq<Seq<u8>>,
    dicts: Seq<Option<Seq<Option<ImageView>>>>,
    i: int,
    doc: DocP,
)
    requires
        crate::decoder::region_type(heads[i].seg_type),
    ensures
        handle_segment(heads, datas, dicts, i, doc) matches Some(hd) ==> !hd.eof,
{
    reveal(handle_segment);
}

/// Handling a code table: nothing changes when the table is valid, else the segment is
/// refused.
pub proof fn lemma_handle_table(
    heads: Seq<HeaderV>,
    datas: Seq<Seq<u8>>,
    dicts: Seq<Option<Seq<Option<ImageView>>>>,
    i: int,
    doc: DocP,
)
    requires
        heads[i].seg_type == Some(SegmentType::CodeTable),
    ensures
        handle_segment(heads, datas, dicts, i, doc) == if table_ok(datas[i]) {
            Some(Handled { doc, dicts, eof: false })
        } else {
            None
        },
{
    reveal(handle_segment);
}

/// Handling a symbol dictionary: the segment gets a dictionary of SDNUMNEWSYMS empty
/// slots.
pub proof fn lemma_handle_symbols(
    heads: Seq<HeaderV>,
    datas: Seq<Seq<u8>>,
    dicts: Seq<Option<Seq<Option<ImageView>>>>,
    i: int,
    doc: DocP,
)
    requires
        heads[i].seg_type == Some(SegmentType::SymbolDictionary),
    ensures
        handle_segment(heads, datas, dicts, i, doc) == match new_symbol_count(datas[i]) {
            None => Some(Handled { doc, dicts, eof: false }),
            Some(n) => Some(Handled { doc, dicts: dicts.update(i, Some(empty_dict(n as nat))), eof: false }),
        },
{
    reveal(handle_segment);
}

/// Handling an immediate text region: decode it with the referred dictionaries and
/// compose it onto the current page.
pub proof fn lemma_handle_text(
    heads: Seq<HeaderV>,
    datas: Seq<Seq<u8>>,
    dicts: Seq<Option<Seq<Option<ImageView>>>>,
    i: int,
    doc: DocP,
)
    requires
        heads[i].seg_type == Some(SegmentType::ImmediateTextRegion) || heads[i].seg_type == Some(
            SegmentType::ImmediateLosslessTextRegion,
        ),
    ensures
        handle_segment(heads, datas, dicts, i, doc) == match text_region_p(
            datas[i],
            text_dicts(head_numbers(heads), dicts, doc.gnums, doc.gdicts, heads[i].refs),
        ) {
            None => None,
            Some(None) => Some(Handled { doc, dicts, eof: false }),
            Some(Some((img, x, y, op))) => match add_result_p(doc.pages[doc.current], img, x, y, op) {
                None => None,
                Some(pg) => Some(Handled { doc: DocP { pages: doc.pages.update(doc.current, pg), ..doc }, dicts, eof: false }),
            },
        },
{
    reveal(handle_segment);
}

/// A page read by `Page::parse_info` without error is the page of `page_info_p`.
pub proof fn lemma_page_info_p(old: Page, n: u32, d: Seq<u8>, new: Page)
    requires
        page_info_read(old, n, d, new, Ok(())),
    ensures
        page_info_p(page_p(old), n, d) == Some(page_p(new)),
{
    let img = new.image.unwrap();
    let flags = d[16];
    let w = img.width;
    let h = img.height;
    let pix0 = |x: int, y: int| if flags & 4 != 0 && 0 <= x < w && 0 <= y < h { 1u8 } else { 0u8 };
    assert forall|x: int, y: int| #[trigger] img.spec_pixel(x, y) == pix0(x, y) by {
        if 0 <= x < w && 0 <= y < h {
            lemma_pixel_index(x, y, w as int, h as int, img.stride as int);
            lemma_fill_bits(x % 8);
        }
    }
    assert(img_p(img).pix =~= pix0);
    let expect = page_info_p(page_p(old), n, d).unwrap();
    assert(expect.image.unwrap().pix =~= pix0);
    assert(expect =~~= page_p(new));
}

/// The page that `Page::add_result` leaves after composing `src` without error is the
/// page of `add_result_p`.
pub proof fn lemma_add_result_p(old: Page, src: Jbig2Image, x: u32, y: u32, op: ComposeOp, new: Page)
    requires
        old.wf(),
        src.wf(),
        old.image is Some,
        new.state == old.state,
        new.number == old.number,
        new.width == old.width,
        new.height == old.height,
        new.x_resolution == old.x_resolution,
        new.y_resolution == old.y_resolution,
        new.flags == old.flags,
        new.striped == old.striped,
        new.stripe_size == old.stripe_size,
        new.end_row == old.end_row,
        ({
            let img = old.image.unwrap();
            let grow = old.striped && old.height == 0xFFFFFFFF;
            let need = y as int + src.height as int;
            let fill_black = old.flags & 4 != 0;
            &&& !(grow && need > u32::MAX)
            &&& !(grow && img.height < need && !image_size_ok(img.width, need as u32))
            &&& {
                let (h, s, data) = if grow && img.height < need {
                    (need, stride_of(img.width as int), resized_data(&img, img.width, need as u32, fill_black))
                } else {
                    (img.height as int, img.stride as int, img.data@)
                };
                new.image matches Some(out) && out.width == img.width && out.height == h && forall|px: int, py: int|
                    #[trigger] out.spec_pixel(px, py) == composed_pixel_in(
                    img.width as int,
                    h,
                    s,
                    data,
                    &src,
                    (x as i32) as int,
                    (y as i32) as int,
                    op,
                    px,
                    py,
                )
            }
        }),
    ensures
        add_result_p(page_p(old), img_p(src), x, y, op) == Some(page_p(new)),
{
    let img = old.image.unwrap();
    let out = new.image.unwrap();
    let grow = old.striped && old.height == 0xFFFFFFFF;
    let need = y as int + src.height as int;
    let fill_black = old.flags & 4 != 0;
    let resized = grow && img.height < need;
    if resized {
        law_resize_keeps_pixels(img, img.width, need as u32, fill_black);
    }
    let expect = add_result_p(page_p(old), img_p(src), x, y, op).unwrap();
    let ep = expect.image.unwrap().pix;
    assert forall|px: int, py: int| #[trigger] ep(px, py) == out.spec_pixel(px, py) by {
        let h: int = if resized { need } else { img.height as int };
        if 0 <= px < img.width && 0 <= py < h {
            if resized {
                if py < img.height {
                    assert(img.spec_pixel(px, py) == pixel_in(
                        img.width as int,
                        need,
                        stride_of(img.width as int),
                        resized_data(&img, img.width, need as u32, fill_black),
                        px,
                        py,
                    ));
                }
            }
        }
    }
    assert(ep =~= img_p(out).pix);
    assert(expect =~~= page_p(new));
}

/// The generic region parameters of a segment are determined by its data.
pub proof fn lemma_gparams_unique(d: Seq<u8>, p1: GenericRegionParams, p2: GenericRegionParams)
    requires
        gparams_read(d, p1),
        gparams_read(d, p2),
    ensures
        p1 == p2,
{
    assert(p1.gbat =~= p2.gbat);
}

/// The text region parameters read from `d` are determined by it.
pub proof fn lemma_tparams_unique(d: Seq<u8>, n: int, p1: TextRegionParams, p2: TextRegionParams)
    requires
        text_params_read(d, p1, n),
        text_params_read(d, p2, n),
    ensures
        p1 == p2,
{
    assert(p1.sbrat =~= p2.sbrat);
}

/// Looking up a glyph depends on the dictionaries' glyphs only.
pub proof fn lemma_cat_lookup_congr(a: Seq<&SymbolDict>, b: Seq<&SymbolDict>, id: int)
    requires
        dict_views(a) == dict_views(b),
    ensures
        cat_lookup(a, id) == cat_lookup(b, id),
    decreases a.len(),
{
    assert(a.len() == dict_views(a).len());
    if a.len() > 0 {
        assert(a[0]@ == dict_views(a)[0]);
        assert(b[0]@ == dict_views(b)[0]);
        assert(a[0].glyphs@.len() == a[0]@.len());
        assert(b[0].glyphs@.len() == b[0]@.len());
        let a1 = a.subrange(1, a.len() as int);
        let b1 = b.subrange(1, b.len() as int);
        assert(dict_views(a1) =~= dict_views(a).subrange(1, a.len() as int));
        assert(dict_views(b1) =~= dict_views(b).subrange(1, b.len() as int));
        lemma_cat_lookup_congr(a1, b1, id - a[0].glyphs@.len());
    }
}

/// Text region decoding depends on the dictionaries' glyphs only.
pub proof fn lemma_text_from_congr(
    d: Seq<u8>,
    p: TextRegionParams,
    a: Seq<&SymbolDict>,
    b: Seq<&SymbolDict>,
    w: int,
    h: int,
    code_len: nat,
    st: TextState,
    ph: TextPhase,
    k: int,
)
    requires
        dict_views(a) == dict_views(b),
    ensures
        text_from(d, p, a, w, h, code_len, st, ph, k) == text_from(d, p, b, w, h, code_len, st, ph, k),
    decreases p.sbnuminstances - k, phase_rank(ph),
{
    assert forall|id: int| cat_lookup(a, id) == cat_lookup(b, id) by {
        lemma_cat_lookup_congr(a, b, id);
    }
    if k < p.sbnuminstances {
        match ph {
            TextPhase::Strip => {
                lemma_text_from_congr(d, p, a, b, w, h, code_len, dt_step(d, p, st), TextPhase::First, k);
            },
            TextPhase::First => {
                let s1 = s_step(d, p, st, true).0;
                assert(place_step(d, p, a, w, h, code_len, s1) == place_step(d, p, b, w, h, code_len, s1));
                lemma_text_from_congr(d, p, a, b, w, h, code_len, place_step(d, p, a, w, h, code_len, s1), TextPhase::Next, k + 1);
            },
            TextPhase::Next => {
                let (s1, more) = s_step(d, p, st, false);
                if more {
                    assert(place_step(d, p, a, w, h, code_len, s1) == place_step(d, p, b, w, h, code_len, s1));
                    lemma_text_from_congr(d, p, a, b, w, h, code_len, place_step(d, p, a, w, h, code_len, s1), TextPhase::Next, k + 1);
                } else {
                    lemma_text_from_congr(d, p, a, b, w, h, code_len, s1, TextPhase::Strip, k);
                }
            },
        }
    }
}

/// The next step refuses the stream: a bad file header, a bad segment header, or a
/// segment whose handling fails.
pub open spec fn frame_error(f: Frame) -> bool {
    let d = f.buf;
    if f.state == DecoderState::FileHeader {
        d.len() >= 9 && (!has_magic(d) || d[8] & 0x0C != 0)
    } else if f.state == DecoderState::SequentialHeader || f.state == DecoderState::RandomHeaders {
        d.len() >= 11 && be_u32(d, 0) == 0xFFFFFFFF
    } else if f.state == DecoderState::SequentialBody || f.state == DecoderState::RandomBodies {
        &&& 0 <= f.idx < f.heads.len()
        &&& d.len() >= data_need(f)
        &&& handle_segment(f.heads, f.datas.update(f.idx, d.subrange(0, data_need(f))), f.dicts, f.idx, f.doc) is None
    } else {
        false
    }
}

/// Decoding from `f` stops on a refused step before it has to wait for bytes.
pub open spec fn run_fails(f: Frame) -> bool
    decreases frame_work(f),
{
    ||| frame_error(f)
    ||| match frame_step(f) {
        None => false,
        Some(g) => {
            proof {
                lemma_step_decreases(f);
            }
            run_fails(g)
        },
    }
}

/// A step that is taken passes the question whether decoding fails on to the next frame.
pub proof fn lemma_run_fails_step(f: Frame)
    ensures
        frame_error(f) ==> frame_step(f) is None,
        frame_step(f) matches Some(g) ==> run_fails(f) == run_fails(g),
        frame_step(f) is None ==> run_fails(f) == frame_error(f),
{
}

/// The next step reads the data of a segment whose length is unknown.
pub open spec fn reads_unknown_length(f: Frame) -> bool {
    &&& f.state == DecoderState::SequentialBody || f.state == DecoderState::RandomBodies
    &&& 0 <= f.idx < f.heads.len()
    &&& f.heads[f.idx].data_length == 0xFFFFFFFF
}

/// No step of the framing from `f` reads the data of a segment of unknown length.
pub open spec fn avoids_unknown_length(f: Frame) -> bool
    decreases frame_work(f),
{
    &&& !reads_unknown_length(f)
    &&& match frame_step(f) {
        None => true,
        Some(g) => {
            proof {
                lemma_step_decreases(f);
            }
            avoids_unknown_length(g)
        },
    }
}

/// A segment header that is all there reads the same with more bytes after it.
proof fn lemma_header_prefix(d: Seq<u8>, b: Seq<u8>)
    requires
        d.len() >= 11,
        d.len() >= header_size(d),
    ensures
        header_size(d + b) == header_size(d),
        be_u32(d + b, 0) == be_u32(d, 0),
        parsed_header(d + b) == parsed_header(d),
{
    let e = d + b;
    assert(forall|i: int| 0 <= i < d.len() ==> e[i] == d[i]);
    let (count, off) = referred_layout(d);
    assert(referred_layout(e) == referred_layout(d));
    let size = ref_size(be_u32(d, 0));
    let pa_off = off + count * size;
    assert(count * size >= 0) by (nonlinear_arith)
        requires
            count >= 0,
            size >= 1,
    ;
    let r1 = Seq::new(count as nat, |i: int| ref_at(d, off + i * size, size));
    let r2 = Seq::new(count as nat, |i: int| ref_at(e, off + i * size, size));
    assert forall|i: int| 0 <= i < count implies r1[i] == r2[i] by {
        assert(i * size + size <= count * size) by (nonlinear_arith)
            requires
                0 <= i < count,
                size >= 1,
        ;
        assert(0 <= i * size) by (nonlinear_arith)
            requires
                0 <= i,
                size >= 1,
        ;
    }
    assert(r1 =~= r2);
}

/// A step that reads no segment of unknown length takes the same bytes when more bytes
/// follow them.
proof fn lemma_step_append(f: Frame, b: Seq<u8>)
    requires
        frame_step(f) is Some,
        !reads_unknown_length(f),
    ensures
        frame_step(appended(f, b)) == Some(appended(frame_step(f).unwrap(), b)),
{
    let d = f.buf;
    let e = d + b;
    let g = frame_step(f).unwrap();
    assert(forall|i: int| 0 <= i < d.len() ==> e[i] == d[i]);
    if f.state == DecoderState::FileHeader {
        assert(e.subrange(0, 8) =~= d.subrange(0, 8));
        let n: int = if d[8] & 2 == 0 { 13 } else { 9 };
        assert(e.subrange(n, e.len() as int) =~= d.subrange(n, d.len() as int) + b);
    } else if f.state == DecoderState::SequentialHeader || f.state == DecoderState::RandomHeaders {
        lemma_header_prefix(d, b);
        let n = header_size(d);
        assert(e.subrange(n, e.len() as int) =~= d.subrange(n, d.len() as int) + b);
    } else if f.state == DecoderState::SequentialBody || f.state == DecoderState::RandomBodies {
        if 0 <= f.idx < f.heads.len() {
            let need = data_need(f);
            assert(data_need(appended(f, b)) == need);
            assert(e.subrange(need, e.len() as int) =~= d.subrange(need, d.len() as int) + b);
            assert(e.subrange(0, need) =~= d.subrange(0, need));
        }
    }
}

/// Feeding bytes in two pieces decodes the stream as feeding them at once: decoding
/// that stops for want of bytes after `a`, and goes on once `b` follows, reads the same
/// segment headers and data, builds the same dictionaries and pages, and reaches the same
/// state as decoding `a` and `b` together, and it fails exactly when decoding them
/// together fails; unless the data of a segment of unknown length is read before `b`
/// comes.
pub proof fn law_stream_in_pieces(f: Frame, a: Seq<u8>, b: Seq<u8>)
    requires
        avoids_unknown_length(appended(f, a)),
    ensures
        frame_final(appended(frame_final(appended(f, a)), b)) == frame_final(appended(f, a + b)),
        run_fails(appended(f, a + b)) == (run_fails(appended(f, a)) || run_fails(
            appended(frame_final(appended(f, a)), b),
        )),
{
    lemma_final_append(appended(f, a), b);
    lemma_fails_append(appended(f, a), b);
    assert(appended(appended(f, a), b) == appended(f, a + b)) by {
        assert(f.buf + a + b =~= f.buf + (a + b));
    }
}

/// The pieces `ps` one after the other, as one byte sequence.
pub open spec fn concat_pieces(ps: Seq<Seq<u8>>) -> Seq<u8>
    decreases ps.len(),
{
    if ps.len() == 0 {
        Seq::empty()
    } else {
        concat_pieces(ps.drop_last()) + ps.last()
    }
}

/// The frame after feeding the pieces `ps` one by one to `f`, decoding as far as each
/// allows.
pub open spec fn feed_pieces(f: Frame, ps: Seq<Seq<u8>>) -> Frame
    decreases ps.len(),
{
    if ps.len() == 0 {
        f
    } else {
        frame_final(appended(feed_pieces(f, ps.drop_last()), ps.last()))
    }
}

/// Feeding the pieces `ps` one by one to `f` fails at some piece.
pub open spec fn pieces_fail(f: Frame, ps: Seq<Seq<u8>>) -> bool
    decreases ps.len(),
{
    if ps.len() == 0 {
        false
    } else {
        pieces_fail(f, ps.drop_last()) || run_fails(appended(feed_pieces(f, ps.drop_last()), ps.last()))
    }
}

/// Feeding a stream in any number of pieces gives what feeding it whole gives: the same
/// frame, and a failure exactly when the whole fails, as long as no segment of unknown
/// length is read before the pieces after it come.
pub proof fn law_stream_in_k_pieces(f: Frame, ps: Seq<Seq<u8>>)
    requires
        ps.len() >= 1,
        forall|j: int| 1 <= j < ps.len() ==> avoids_unknown_length(#[trigger] appended(f, concat_pieces(ps.take(j)))),
    ensures
        feed_pieces(f, ps) == frame_final(appended(f, concat_pieces(ps))),
        pieces_fail(f, ps) == run_fails(appended(f, concat_pieces(ps))),
    decreases ps.len(),
{
    let dl = ps.drop_last();
    if ps.len() == 1 {
        assert(dl.len() == 0);
        assert(concat_pieces(dl) == Seq::<u8>::empty());
        assert(concat_pieces(ps) =~= ps.last());
        assert(feed_pieces(f, dl) == f);
        assert(!pieces_fail(f, dl));
    } else {
        assert forall|j: int| 1 <= j < dl.len() implies avoids_unknown_length(#[trigger] appended(f, concat_pieces(dl.take(j)))) by {
            assert(dl.take(j) =~= ps.take(j));
            assert(avoids_unknown_length(appended(f, concat_pieces(ps.take(j)))));
        }
        law_stream_in_k_pieces(f, dl);
        assert(ps.take(dl.len() as int) =~= dl);
        assert(avoids_unknown_length(appended(f, concat_pieces(ps.take(dl.len() as int)))));
        law_stream_in_pieces(f, concat_pieces(dl), ps.last());
        assert(concat_pieces(ps) == concat_pieces(dl) + ps.last());
        assert(pieces_fail(f, ps) == (pieces_fail(f, dl) || run_fails(appended(feed_pieces(f, dl), ps.last()))));
    }
}

/// A segment header is read from its own bytes alone: bytes that follow it do not change
/// what is read.
pub proof fn law_header_from_own_bytes(d: Seq<u8>, b: Seq<u8>)
    requires
        d.len() >= 11,
        d.len() >= header_size(d),
    ensures
        header_size(d + b) == header_size(d),
        parsed_header(d + b) == parsed_header(d),
{
    lemma_header_prefix(d, b);
}

/// A refused step is refused as well when more bytes follow, when it reads no segment of
/// unknown length.
proof fn lemma_error_append(f: Frame, b: Seq<u8>)
    requires
        frame_error(f),
        !reads_unknown_length(f),
    ensures
        frame_error(appended(f, b)),
{
    let d = f.buf;
    let e = d + b;
    assert(forall|i: int| 0 <= i < d.len() ==> e[i] == d[i]);
    if f.state == DecoderState::FileHeader {
        assert(e.subrange(0, 8) =~= d.subrange(0, 8));
    } else if f.state == DecoderState::SequentialBody || f.state == DecoderState::RandomBodies {
        let need = data_need(f);
        assert(data_need(appended(f, b)) == need);
        assert(e.subrange(0, need) =~= d.subrange(0, need));
    }
}

/// Decoding `g` and then the bytes `b` appended fails exactly when decoding `g` fails or
/// decoding on with `b` fails, when no segment of unknown length is read on the way.
proof fn lemma_fails_append(g: Frame, b: Seq<u8>)
    requires
        avoids_unknown_length(g),
    ensures
        run_fails(appended(g, b)) == (run_fails(g) || run_fails(appended(frame_final(g), b))),
    decreases frame_work(g),
{
    lemma_run_fails_step(g);
    lemma_run_fails_step(appended(g, b));
    match frame_step(g) {
        None => {
            if frame_error(g) {
                lemma_error_append(g, b);
            }
        },
        Some(h) => {
            lemma_step_decreases(g);
            lemma_step_append(g, b);
            lemma_fails_append(h, b);
        },
    }
}

/// Framing `g` and then the bytes `b` appended ends where framing `g` with `b`
/// appended ends, when no segment of unknown length is read on the way.
proof fn lemma_final_append(g: Frame, b: Seq<u8>)
    requires
        avoids_unknown_length(g),
    ensures
        frame_final(appended(frame_final(g), b)) == frame_final(appended(g, b)),
    decreases frame_work(g),
{
    match frame_step(g) {
        None => {},
        Some(h) => {
            lemma_step_decreases(g);
            lemma_step_append(g, b);
            lemma_final_append(h, b);
        },
    }
}

} // verus!
