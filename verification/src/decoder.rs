//! The decoder context: the state machine that reads a JBIG2 stream segment by segment
//! and renders pages.

use vstd::prelude::*;
use crate::arith::{ArithCx, ArithState};
use crate::bytes::be_u32;
use crate::error::Jbig2Error;
use crate::generic::{self, GenericRegionParams};
use crate::header::{has_magic, FileHeader, Organization};
use crate::image::{ComposeOp, ImageView, Jbig2Image};
use crate::mmr_region;
use crate::page::{blank_page, image_fits, image_size_ok, page_info_read, Page, PageState};
use crate::segment::{header_size, RegionSegmentInfo, SegmentHeader, SegmentType};
use crate::stream::{DocP, Frame, Handled, HeaderV, PageP, add_result_p, frame_error, run_fails, first_complete_p, handed_out, dict_of_ref, dict_views, first_num, head_numbers, text_dicts, text_region_p, wrap_total, empty_dict, generic_region_p, gparams_read, img_p, page_info_p, first_free_p, handle_segment, lemma_add_result_p, lemma_handle_control, lemma_handle_generic, lemma_handle_page_info, lemma_handle_symbols, lemma_handle_text, lemma_page_info_p, page_p, appended, embedded_start, file_start, frame_final, frame_step, header_view, lemma_final_step, lemma_header_view};
use crate::symbol_dict::{sdat_len, sdrat_len, SymbolDict, SymbolDictParams};
use crate::bytes::be_u16;
use crate::text::TextRegionParams;
use crate::refinement::RefinementRegionParams;

verus! {

/// Where the decoder is in the stream.
#[derive(Debug, Clone, Copy, PartialEq, Eq, Structural)]
pub enum DecoderState {
    FileHeader,
    SequentialHeader,
    SequentialBody,
    RandomHeaders,
    RandomBodies,
    Eof,
}

/// A segment read from the stream: its header, its data, and the symbol dictionary it
/// defined, if any.
#[derive(Debug, Clone)]
pub struct StoredSegment {
    pub header: SegmentHeader,
    pub data: Vec<u8>,
    pub symbol_dict: Option<SymbolDict>,
}

/// The glyphs of a stored symbol dictionary are well formed.
pub open spec fn dict_ok(d: Option<SymbolDict>) -> bool {
    d matches Some(sd) ==> {
        &&& sd.wf()
        &&& forall|i: int|
            0 <= i < sd.glyphs@.len() && (#[trigger] sd.glyphs@[i]) is Some ==> sd.glyphs@[i].unwrap().wf()
    }
}

/// Every stored symbol dictionary is well formed.
pub open spec fn segments_ok(segs: Seq<StoredSegment>) -> bool {
    forall|i: int| 0 <= i < segs.len() ==> dict_ok((#[trigger] segs[i]).symbol_dict)
}

/// The JBIG2 decoder context.
pub struct Decoder {
    pub state: DecoderState,
    buf: Vec<u8>,
    segments: Vec<StoredSegment>,
    segment_index: usize,
    pages: Vec<Page>,
    current_page: usize,
    file_header: Option<FileHeader>,
    global_segments: Vec<StoredSegment>,
}

/// The header value of a stored segment.
pub open spec fn seg_head(s: StoredSegment) -> HeaderV {
    header_view(s.header)
}

/// The data of a stored segment.
pub open spec fn seg_bytes(s: StoredSegment) -> Seq<u8> {
    s.data@
}

/// The header values of stored segments.
pub open spec fn heads_of(segs: Seq<StoredSegment>) -> Seq<HeaderV> {
    segs.map_values(|s: StoredSegment| seg_head(s))
}

/// The data of stored segments.
pub open spec fn datas_of(segs: Seq<StoredSegment>) -> Seq<Seq<u8>> {
    segs.map_values(|s: StoredSegment| seg_bytes(s))
}

/// The symbol dictionaries of stored segments, as glyph views.
pub open spec fn dicts_of(segs: Seq<StoredSegment>) -> Seq<Option<Seq<Option<ImageView>>>> {
    segs.map_values(|s: StoredSegment| seg_dict(s))
}

/// The numbers of stored segments.
pub open spec fn nums_of(segs: Seq<StoredSegment>) -> Seq<u32> {
    segs.map_values(|s: StoredSegment| s.header.number)
}

/// The values of pages, their images as pixels.
pub open spec fn pages_of(pages: Seq<Page>) -> Seq<PageP> {
    pages.map_values(|p: Page| page_p(p))
}

/// The symbol dictionary of a stored segment, as glyph views.
pub open spec fn seg_dict(s: StoredSegment) -> Option<Seq<Option<ImageView>>> {
    match s.symbol_dict {
        Some(d) => Some(d@),
        None => None,
    }
}

impl Default for Decoder {
    /// A decoder for a whole JBIG2 file, as `Decoder::new`.
    fn default() -> (d: Self)
        ensures
            d.wf(),
            d.dstate() == DecoderState::FileHeader,
            d.frame() == file_start(),
            d.pending().len() == 0,
            d.segments_view().len() == 0,
            d.globals_view().len() == 0,
            d.handled() == 0,
            d.pages_view().len() == 1,
            d.pages_view()[0].state == PageState::Free,
            d.pages_view()[0].image is None,
            d.current() == 0,
    {
        Decoder::new()
    }
}

/// The combination operator with the three-bit code `v & 7` (Or for the undefined codes).
pub open spec fn op_code(v: u8) -> ComposeOp {
    let c = v & 7;
    if c == 1 {
        ComposeOp::And
    } else if c == 2 {
        ComposeOp::Xor
    } else if c == 3 {
        ComposeOp::Xnor
    } else if c == 4 {
        ComposeOp::Replace
    } else {
        ComposeOp::Or
    }
}

/// The combination operator coded by the low three bits of `v`.
fn compose_op_from_u8(v: u8) -> (op: ComposeOp)
    ensures
        op == op_code(v),
{
    match v & 7 {
        0 => ComposeOp::Or,
        1 => ComposeOp::And,
        2 => ComposeOp::Xor,
        3 => ComposeOp::Xnor,
        4 => ComposeOp::Replace,
        _ => ComposeOp::Or,
    }
}

/// Index of the first segment of `segs` numbered `n`, or `segs.len()` if none.
pub open spec fn first_numbered(segs: Seq<StoredSegment>, n: u32) -> int
    decreases segs.len(),
{
    if segs.len() == 0 {
        0
    } else if segs[0].header.number == n {
        0
    } else {
        1 + first_numbered(segs.subrange(1, segs.len() as int), n)
    }
}

proof fn lemma_first_numbered(segs: Seq<StoredSegment>, n: u32)
    ensures
        0 <= first_numbered(segs, n) <= segs.len(),
        first_numbered(segs, n) < segs.len() ==> segs[first_numbered(segs, n)].header.number == n,
        forall|i: int| 0 <= i < first_numbered(segs, n) ==> (#[trigger] segs[i]).header.number != n,
    decreases segs.len(),
{
    if segs.len() > 0 && segs[0].header.number != n {
        let rest = segs.subrange(1, segs.len() as int);
        lemma_first_numbered(rest, n);
        assert forall|i: int| 0 <= i < first_numbered(segs, n) implies (#[trigger] segs[i]).header.number != n by {
            if i > 0 {
                assert(segs[i] == rest[i - 1]);
            }
        }
    }
}

/// The first segment numbered `n` in `segs`.
fn find_in(segs: &[StoredSegment], n: u32) -> (r: Option<usize>)
    ensures
        match r {
            Some(i) => i == first_numbered(segs@, n) && i < segs@.len(),
            None => first_numbered(segs@, n) == segs@.len(),
        },
{
    let mut i: usize = 0;
    proof {
        lemma_first_numbered(segs@, n);
    }
    while i < segs.len()
        invariant
            i <= segs@.len(),
            0 <= first_numbered(segs@, n) <= segs@.len(),
            first_numbered(segs@, n) < segs@.len() ==> segs@[first_numbered(segs@, n)].header.number == n,
            forall|j: int| 0 <= j < first_numbered(segs@, n) ==> (#[trigger] segs@[j]).header.number != n,
            i <= first_numbered(segs@, n),
        decreases segs@.len() - i,
    {
        if segs[i].header.number == n {
            return Some(i);
        }
        i += 1;
    }
    None
}

/// The segment numbered `n`: the first such among `local`, else the first among `global`.
pub open spec fn lookup_segment(local: Seq<StoredSegment>, global: Seq<StoredSegment>, n: u32) -> Option<StoredSegment> {
    if first_numbered(local, n) < local.len() {
        Some(local[first_numbered(local, n)])
    } else if first_numbered(global, n) < global.len() {
        Some(global[first_numbered(global, n)])
    } else {
        None
    }
}

/// Find the segment numbered `n`, searching `local` first, then `global`.
fn find_segment_in<'a>(local: &'a [StoredSegment], global: &'a [StoredSegment], n: u32) -> (r: Option<&'a StoredSegment>)
    ensures
        match r {
            Some(s) => lookup_segment(local@, global@, n) == Some(*s),
            None => lookup_segment(local@, global@, n) is None,
        },
{
    match find_in(local, n) {
        Some(i) => Some(&local[i]),
        None => match find_in(global, n) {
            Some(i) => Some(&global[i]),
            None => None,
        },
    }
}

/// Remove the first `n` bytes of `buf` and return them.
fn take_front(buf: &mut Vec<u8>, n: usize) -> (front: Vec<u8>)
    requires
        n <= old(buf)@.len(),
    ensures
        front@ == old(buf)@.subrange(0, n as int),
        final(buf)@ == old(buf)@.subrange(n as int, old(buf)@.len() as int),
{
    let mut rest = buf.split_off(n);
    std::mem::swap(buf, &mut rest);
    rest
}

/// Index of the first page in `pages` that is `Free`, or `pages.len()` if none.
pub open spec fn first_free(pages: Seq<Page>) -> int
    decreases pages.len(),
{
    if pages.len() == 0 {
        0
    } else if pages[0].state == PageState::Free {
        0
    } else {
        1 + first_free(pages.subrange(1, pages.len() as int))
    }
}

/// Index of the first page in `pages` that is `Complete`, or `pages.len()` if none.
pub open spec fn first_complete(pages: Seq<Page>) -> int
    decreases pages.len(),
{
    if pages.len() == 0 {
        0
    } else if pages[0].state == PageState::Complete {
        0
    } else {
        1 + first_complete(pages.subrange(1, pages.len() as int))
    }
}

/// The number of pages in `pages` that are `Complete`.
pub open spec fn count_complete(pages: Seq<Page>) -> nat
    decreases pages.len(),
{
    if pages.len() == 0 {
        0
    } else {
        count_complete(pages.subrange(1, pages.len() as int)) + if pages[0].state == PageState::Complete {
            1nat
        } else {
            0nat
        }
    }
}

proof fn lemma_first_free(pages: Seq<Page>)
    ensures
        0 <= first_free(pages) <= pages.len(),
        first_free(pages) < pages.len() ==> pages[first_free(pages)].state == PageState::Free,
        forall|i: int| 0 <= i < first_free(pages) ==> (#[trigger] pages[i]).state != PageState::Free,
    decreases pages.len(),
{
    if pages.len() > 0 && pages[0].state != PageState::Free {
        let rest = pages.subrange(1, pages.len() as int);
        lemma_first_free(rest);
        assert forall|i: int| 0 <= i < first_free(pages) implies (#[trigger] pages[i]).state != PageState::Free by {
            if i > 0 {
                assert(pages[i] == rest[i - 1]);
            }
        }
    }
}

proof fn lemma_first_complete(pages: Seq<Page>)
    ensures
        0 <= first_complete(pages) <= pages.len(),
        first_complete(pages) < pages.len() ==> pages[first_complete(pages)].state == PageState::Complete,
        forall|i: int| 0 <= i < first_complete(pages) ==> (#[trigger] pages[i]).state != PageState::Complete,
        first_complete(pages) == pages.len() <==> count_complete(pages) == 0,
    decreases pages.len(),
{
    if pages.len() > 0 {
        let rest = pages.subrange(1, pages.len() as int);
        lemma_first_complete(rest);
        if pages[0].state != PageState::Complete {
            assert forall|i: int| 0 <= i < first_complete(pages) implies (#[trigger] pages[i]).state
                != PageState::Complete by {
                if i > 0 {
                    assert(pages[i] == rest[i - 1]);
                }
            }
        }
    }
}

/// Marking a complete page returned leaves one complete page fewer.
proof fn lemma_count_complete_update(pages: Seq<Page>, i: int, p: Page)
    requires
        0 <= i < pages.len(),
        pages[i].state == PageState::Complete,
        p.state != PageState::Complete,
    ensures
        count_complete(pages.update(i, p)) + 1 == count_complete(pages),
    decreases pages.len(),
{
    let rest = pages.subrange(1, pages.len() as int);
    let up = pages.update(i, p);
    assert(up.subrange(1, up.len() as int) =~= if i == 0 {
        rest
    } else {
        rest.update(i - 1, p)
    });
    if i > 0 {
        lemma_count_complete_update(rest, i - 1, p);
    }
}

/// The first complete page is found alike among pages and among their values.
proof fn lemma_first_complete_of(pages: Seq<Page>)
    ensures
        first_complete(pages) == first_complete_p(pages_of(pages)),
    decreases pages.len(),
{
    if pages.len() > 0 {
        let rest = pages.subrange(1, pages.len() as int);
        assert(pages_of(pages).subrange(1, pages.len() as int) =~= pages_of(rest));
        lemma_first_complete_of(rest);
    }
}

/// The page values after replacing page `k`.
proof fn lemma_pages_of_update(pages: Seq<Page>, k: int, p: Page)
    requires
        0 <= k < pages.len(),
    ensures
        pages_of(pages.update(k, p)) == pages_of(pages).update(k, page_p(p)),
{
    assert(pages_of(pages.update(k, p)) =~= pages_of(pages).update(k, page_p(p)));
}

/// The page values after adding a page.
proof fn lemma_pages_of_push(pages: Seq<Page>, p: Page)
    ensures
        pages_of(pages.push(p)) == pages_of(pages).push(page_p(p)),
{
    assert(pages_of(pages.push(p)) =~= pages_of(pages).push(page_p(p)));
}

/// The first free page is found alike among pages and among their values.
proof fn lemma_first_free_p(pages: Seq<Page>)
    ensures
        first_free(pages) == first_free_p(pages_of(pages)),
    decreases pages.len(),
{
    if pages.len() > 0 {
        let rest = pages.subrange(1, pages.len() as int);
        assert(pages_of(pages).subrange(1, pages.len() as int) =~= pages_of(rest));
        lemma_first_free_p(rest);
    }
}

/// The stored segment values after replacing segment `k`.
proof fn lemma_segs_update(segs: Seq<StoredSegment>, k: int, sg: StoredSegment)
    requires
        0 <= k < segs.len(),
    ensures
        heads_of(segs.update(k, sg)) == heads_of(segs).update(k, seg_head(sg)),
        datas_of(segs.update(k, sg)) == datas_of(segs).update(k, seg_bytes(sg)),
        dicts_of(segs.update(k, sg)) == dicts_of(segs).update(k, seg_dict(sg)),
{
    assert(heads_of(segs.update(k, sg)) =~= heads_of(segs).update(k, seg_head(sg)));
    assert(datas_of(segs.update(k, sg)) =~= datas_of(segs).update(k, seg_bytes(sg)));
    assert(dicts_of(segs.update(k, sg)) =~= dicts_of(segs).update(k, seg_dict(sg)));
}

impl Decoder {
    /// The pages are well formed and one of them is current, the segment cursor lies
    /// within the segments, and stored symbol dictionaries are well formed.
    pub closed spec fn wf(&self) -> bool {
        &&& self.current_page < self.pages@.len()
        &&& forall|i: int| 0 <= i < self.pages@.len() ==> (#[trigger] self.pages@[i]).wf()
        &&& self.segment_index <= self.segments@.len()
        &&& segments_ok(self.segments@)
        &&& segments_ok(self.global_segments@)
    }

    /// Where the decoder is.
    pub closed spec fn dstate(&self) -> DecoderState {
        self.state
    }

    /// The bytes received and not yet consumed.
    pub closed spec fn pending(&self) -> Seq<u8> {
        self.buf@
    }

    /// The pages.
    pub closed spec fn pages_view(&self) -> Seq<Page> {
        self.pages@
    }

    /// The segments read so far.
    pub closed spec fn segments_view(&self) -> Seq<StoredSegment> {
        self.segments@
    }

    /// The global segments.
    pub closed spec fn globals_view(&self) -> Seq<StoredSegment> {
        self.global_segments@
    }

    /// The number of segments whose data has been read and handled.
    pub closed spec fn handled(&self) -> int {
        self.segment_index as int
    }

    /// The page that segments apply to.
    pub closed spec fn current(&self) -> int {
        self.current_page as int
    }

    /// Where the framing of the stream stands: state, bytes not yet used, the headers and
    /// data of the segments read, and the number of segments handled.
    pub closed spec fn frame(&self) -> Frame {
        Frame {
            state: self.state,
            buf: self.buf@,
            heads: heads_of(self.segments@),
            datas: datas_of(self.segments@),
            dicts: dicts_of(self.segments@),
            idx: self.segment_index as int,
            doc: DocP {
                pages: pages_of(self.pages@),
                current: self.current_page as int,
                gnums: nums_of(self.global_segments@),
                gdicts: dicts_of(self.global_segments@),
            },
        }
    }

    /// A decoder for a whole JBIG2 file, starting at its file header.
    pub fn new() -> (d: Self)
        ensures
            d.wf(),
            d.dstate() == DecoderState::FileHeader,
            d.frame() == file_start(),
            d.pending().len() == 0,
            d.segments_view().len() == 0,
            d.globals_view().len() == 0,
            d.handled() == 0,
            d.pages_view().len() == 1,
            d.pages_view()[0].state == PageState::Free,
            d.pages_view()[0].image is None,
            d.current() == 0,
    {
        let mut pages: Vec<Page> = Vec::with_capacity(4);
        pages.push(Page::new());
        let d = Decoder {
            state: DecoderState::FileHeader,
            buf: Vec::new(),
            segments: Vec::new(),
            segment_index: 0,
            pages,
            current_page: 0,
            file_header: None,
            global_segments: Vec::new(),
        };
        proof {
            assert(d.frame().buf =~= Seq::<u8>::empty());
            assert(d.frame().heads =~= Seq::<HeaderV>::empty());
            assert(d.frame().datas =~= Seq::<Seq<u8>>::empty());
            assert(d.frame().dicts =~= Seq::<Option<Seq<Option<ImageView>>>>::empty());
            assert(d.frame().doc.pages =~= seq![page_p(blank_page())]);
            assert(d.frame().doc.gnums =~= Seq::<u32>::empty());
            assert(d.frame().doc.gdicts =~= Seq::<Option<Seq<Option<ImageView>>>>::empty());
        }
        d
    }

    /// A decoder for an embedded stream (no file header), starting at a segment header.
    pub fn new_embedded() -> (d: Self)
        ensures
            d.wf(),
            d.dstate() == DecoderState::SequentialHeader,
            d.frame() == embedded_start(),
            d.pending().len() == 0,
            d.segments_view().len() == 0,
            d.globals_view().len() == 0,
            d.handled() == 0,
            d.pages_view().len() == 1,
            d.pages_view()[0].state == PageState::Free,
            d.pages_view()[0].image is None,
            d.current() == 0,
    {
        let mut pages: Vec<Page> = Vec::with_capacity(4);
        pages.push(Page::new());
        let d = Decoder {
            state: DecoderState::SequentialHeader,
            buf: Vec::new(),
            segments: Vec::new(),
            segment_index: 0,
            pages,
            current_page: 0,
            file_header: None,
            global_segments: Vec::new(),
        };
        proof {
            assert(d.frame().buf =~= Seq::<u8>::empty());
            assert(d.frame().heads =~= Seq::<HeaderV>::empty());
            assert(d.frame().datas =~= Seq::<Seq<u8>>::empty());
            assert(d.frame().dicts =~= Seq::<Option<Seq<Option<ImageView>>>>::empty());
            assert(d.frame().doc.pages =~= seq![page_p(blank_page())]);
            assert(d.frame().doc.gnums =~= Seq::<u32>::empty());
            assert(d.frame().doc.gdicts =~= Seq::<Option<Seq<Option<ImageView>>>>::empty());
        }
        d
    }

    /// Hand out the first complete page: it becomes `Returned` and a copy of its image is
    /// returned (`None` when no page is complete, or the complete page has no image).
    pub fn page_out(&mut self) -> (r: Option<Jbig2Image>)
        requires
            old(self).wf(),
        ensures
            final(self).wf(),
            final(self).dstate() == old(self).dstate(),
            final(self).pending() == old(self).pending(),
            final(self).segments_view() == old(self).segments_view(),
            final(self).globals_view() == old(self).globals_view(),
            final(self).handled() == old(self).handled(),
            final(self).current() == old(self).current(),
            ({
                let k = first_complete(old(self).pages_view());
                if k == old(self).pages_view().len() {
                    r is None && final(self).pages_view() == old(self).pages_view()
                } else {
                    let p = old(self).pages_view()[k];
                    &&& final(self).pages_view() == old(self).pages_view().update(k, Page { state: PageState::Returned, ..p })
                    &&& match p.image {
                        Some(img) => r matches Some(out) && out@ == img@ && out.wf(),
                        None => r is None,
                    }
                    &&& count_complete(final(self).pages_view()) + 1 == count_complete(old(self).pages_view())
                }
            }),
            ({
                let hp = handed_out(old(self).frame().doc.pages);
                match r {
                    Some(out) => hp.len() > 0 && img_p(out) == hp[0] && handed_out(final(self).frame().doc.pages)
                        == hp.drop_first(),
                    None => hp.len() == 0,
                }
            }),
            final(self).frame().doc.pages == crate::stream::take_page(old(self).frame().doc.pages),
    {
        proof {
            lemma_first_complete(self.pages@);
            lemma_first_complete_of(self.pages@);
        }
        let mut i: usize = 0;
        while i < self.pages.len()
            invariant
                i <= self.pages@.len(),
                i <= first_complete(self.pages@),
                0 <= first_complete(self.pages@) <= self.pages@.len(),
                first_complete(self.pages@) < self.pages@.len() ==> self.pages@[first_complete(self.pages@)].state
                    == PageState::Complete,
                forall|j: int| 0 <= j < first_complete(self.pages@) ==> (#[trigger] self.pages@[j]).state != PageState::Complete,
                *self == *old(self),
                old(self).wf(),
            decreases self.pages@.len() - i,
        {
            if self.pages[i].state == PageState::Complete {
                let mut page = self.pages.remove(i);
                let ghost p0 = page;
                page.state = PageState::Returned;
                let out = match &page.image {
                    Some(img) => Some(img.duplicate()),
                    None => None,
                };
                self.pages.insert(i, page);
                proof {
                    assert(self.pages@ =~= old(self).pages@.update(i as int, Page { state: PageState::Returned, ..p0 }));
                    lemma_count_complete_update(old(self).pages@, i as int, Page { state: PageState::Returned, ..p0 });
                    lemma_pages_of_update(old(self).pages@, i as int, Page { state: PageState::Returned, ..p0 });
                    let hp = handed_out(old(self).frame().doc.pages);
                    let mp = pages_of(old(self).pages@);
                    assert(mp[i as int] == page_p(p0));
                    assert(i == first_complete(old(self).pages@));
                    lemma_first_complete_of(old(self).pages@);
                    assert(i == first_complete_p(mp));
                    assert(page_p(Page { state: PageState::Returned, ..p0 }) == PageP { state: PageState::Returned, ..mp[i as int] });
                    if p0.image is Some {
                        let img = p0.image.unwrap();
                        let o = out.unwrap();
                        assert(img_p(o).pix =~= img_p(img).pix);
                        assert(img_p(o) =~= img_p(img));
                        assert(mp[i as int].image == Some(img_p(img)));
                        assert(hp == seq![img_p(img)] + handed_out(mp.update(i as int, PageP { state: PageState::Returned, ..mp[i as int] })));
                        assert(hp.drop_first() =~= handed_out(mp.update(i as int, PageP { state: PageState::Returned, ..mp[i as int] })));
                    }
                    assert forall|j: int| 0 <= j < self.pages@.len() implies (#[trigger] self.pages@[j]).wf() by {
                        assert(old(self).pages@[j].wf());
                    }
                }
                return out;
            }
            i += 1;
        }
        proof {
            lemma_first_complete_of(self.pages@);
        }
        None
    }

    /// Use `segments` as the global segments (searched after the stream's own).
    pub fn set_global_segments(&mut self, segments: Vec<StoredSegment>)
        requires
            old(self).wf(),
            segments_ok(segments@),
        ensures
            final(self).wf(),
            final(self).globals_view() == segments@,
            final(self).dstate() == old(self).dstate(),
            final(self).pending() == old(self).pending(),
            final(self).segments_view() == old(self).segments_view(),
            final(self).pages_view() == old(self).pages_view(),
            final(self).handled() == old(self).handled(),
            final(self).current() == old(self).current(),
    {
        self.global_segments = segments;
    }

    /// The segment numbered `n`: the first such among the stream's segments, else among
    /// the global segments.
    fn find_segment(&self, n: u32) -> (r: Option<&StoredSegment>)
        ensures
            match r {
                Some(s) => lookup_segment(self.segments@, self.global_segments@, n) == Some(*s),
                None => lookup_segment(self.segments@, self.global_segments@, n) is None,
            },
    {
        find_segment_in(self.segments.as_slice(), self.global_segments.as_slice(), n)
    }

    /// Make the first free page current, adding a new page when none is free.
    fn ensure_page(&mut self, _page_number: u32)
        requires
            old(self).wf(),
        ensures
            final(self).wf(),
            final(self).dstate() == old(self).dstate(),
            final(self).buf@ == old(self).buf@,
            final(self).segments@ == old(self).segments@,
            final(self).global_segments@ == old(self).global_segments@,
            final(self).segment_index == old(self).segment_index,
            first_free(old(self).pages@) < old(self).pages@.len() ==> final(self).pages@ == old(self).pages@
                && final(self).current_page == first_free(old(self).pages@),
            first_free(old(self).pages@) == old(self).pages@.len() ==> final(self).pages@ == old(self).pages@.push(
                blank_page(),
            ) && final(self).current_page == old(self).pages@.len(),
    {
        proof {
            lemma_first_free(self.pages@);
        }
        let mut i: usize = 0;
        while i < self.pages.len()
            invariant
                i <= self.pages@.len(),
                i <= first_free(self.pages@),
                0 <= first_free(self.pages@) <= self.pages@.len(),
                first_free(self.pages@) < self.pages@.len() ==> self.pages@[first_free(self.pages@)].state == PageState::Free,
                forall|j: int| 0 <= j < first_free(self.pages@) ==> (#[trigger] self.pages@[j]).state != PageState::Free,
                *self == *old(self),
                old(self).wf(),
            decreases self.pages@.len() - i,
        {
            if self.pages[i].state == PageState::Free {
                self.current_page = i;
                return;
            }
            i += 1;
        }
        self.current_page = self.pages.len();
        self.pages.push(Page::new());
        proof {
            assert forall|j: int| 0 <= j < self.pages@.len() implies (#[trigger] self.pages@[j]).wf() by {
                if j < old(self).pages@.len() {
                    assert(old(self).pages@[j].wf());
                }
            }
        }
    }
}

/// The number of new symbols a symbol dictionary segment's `data` declares (SDNUMNEWSYMS),
/// `None` when its header is cut short.
pub open spec fn new_symbol_count(d: Seq<u8>) -> Option<u32> {
    let flags = be_u16(d, 0);
    let off = 2 + sdat_len(flags) + sdrat_len(flags);
    if d.len() < 10 || d.len() < off + 8 {
        None
    } else {
        Some(be_u32(d, off + 4))
    }
}

/// A looked-up segment of well-formed segment lists has a well-formed dictionary.
proof fn lemma_lookup_ok(local: Seq<StoredSegment>, global: Seq<StoredSegment>, n: u32)
    requires
        segments_ok(local),
        segments_ok(global),
    ensures
        lookup_segment(local, global, n) matches Some(s) ==> dict_ok(s.symbol_dict),
{
    lemma_first_numbered(local, n);
    lemma_first_numbered(global, n);
}

/// Numbered segments are found alike among segments and among their numbers.
proof fn lemma_first_num(segs: Seq<StoredSegment>, n: u32)
    ensures
        first_numbered(segs, n) == first_num(nums_of(segs), n),
    decreases segs.len(),
{
    if segs.len() > 0 {
        let rest = segs.subrange(1, segs.len() as int);
        assert(nums_of(segs).subrange(1, segs.len() as int) =~= nums_of(rest));
        lemma_first_num(rest, n);
    }
}

/// The dictionary of the segment that a lookup finds, as glyph views.
proof fn lemma_dict_of_ref(local: Seq<StoredSegment>, global: Seq<StoredSegment>, n: u32)
    ensures
        (match lookup_segment(local, global, n) {
            Some(sg) => seg_dict(sg),
            None => None,
        }) == dict_of_ref(head_numbers(heads_of(local)), dicts_of(local), nums_of(global), dicts_of(global), n),
{
    assert(head_numbers(heads_of(local)) =~= nums_of(local));
    lemma_first_num(local, n);
    lemma_first_num(global, n);
    lemma_first_numbered(local, n);
    lemma_first_numbered(global, n);
}

impl Decoder {
    /// All but the pages are unchanged from `other`.
    spec fn same_but_pages(&self, other: &Decoder) -> bool {
        &&& self.state == other.state
        &&& self.buf@ == other.buf@
        &&& self.segments@ == other.segments@
        &&& self.global_segments@ == other.global_segments@
        &&& self.segment_index == other.segment_index
        &&& self.current_page == other.current_page
    }

    /// Decode an immediate generic region segment and combine it into the current page.
    #[verifier::rlimit(100)]
    #[verifier::spinoff_prover]
    fn decode_immediate_generic(&mut self, seg_idx: usize) -> (r: Result<(), Jbig2Error>)
        requires
            old(self).wf(),
            seg_idx < old(self).segments@.len(),
        ensures
            final(self).wf(),
            final(self).same_but_pages(&*old(self)),
            final(self).pages@.len() == old(self).pages@.len(),
            forall|i: int| 0 <= i < old(self).pages@.len() && i != old(self).current_page ==> final(self).pages@[i]
                == old(self).pages@[i],
            old(self).segments@[seg_idx as int].data@.len() < 18 ==> (r matches Err(e) && e is InvalidData)
                && final(self).pages@ == old(self).pages@,
            r is Ok ==> ({
                let cur = old(self).current_page as int;
                &&& generic_region_p(old(self).segments@[seg_idx as int].data@) matches Some((img, x, y, op))
                &&& add_result_p(page_p(old(self).pages@[cur]), img, x, y, op) == Some(page_p(final(self).pages@[cur]))
            }),
            r is Err ==> match generic_region_p(old(self).segments@[seg_idx as int].data@) {
                None => true,
                Some((img, x, y, op)) => add_result_p(page_p(old(self).pages@[old(self).current_page as int]), img, x, y, op) is None,
            },
    {
        let data = &self.segments[seg_idx].data;
        if data.len() < 18 {
            return Err(Jbig2Error::InvalidData("generic region segment too short".to_owned()));
        }
        let ghost d = data@;
        let rsi = match RegionSegmentInfo::parse(vstd::slice::slice_subrange(data.as_slice(), 0, 17)) {
            Ok(v) => v,
            Err(e) => {
                return Err(e);
            },
        };
        proof {
            let head = d.subrange(0, 17);
            assert(head[0] == d[0] && head[1] == d[1] && head[2] == d[2] && head[3] == d[3]);
            assert(head[4] == d[4] && head[5] == d[5] && head[6] == d[6] && head[7] == d[7]);
            assert(head[8] == d[8] && head[9] == d[9] && head[10] == d[10] && head[11] == d[11]);
            assert(head[12] == d[12] && head[13] == d[13] && head[14] == d[14] && head[15] == d[15]);
            assert(head[16] == d[16]);
        }
        let seg_flags = data[17];
        let (mut params, gbat_size) = GenericRegionParams::parse(seg_flags);
        if !params.mmr && data.len() >= 18 + gbat_size {
            params.set_gbat(vstd::slice::slice_subrange(data.as_slice(), 18, 18 + gbat_size));
        }
        let offset = 18 + gbat_size;
        if offset > data.len() {
            return Err(Jbig2Error::InvalidData("generic region segment too short".to_owned()));
        }
        proof {
            assert(gparams_read(d, params));
        }
        let region_data = vstd::slice::slice_subrange(data.as_slice(), offset, data.len());
        if !image_fits(rsi.width, rsi.height) {
            return Err(Jbig2Error::InvalidData("region too large".to_owned()));
        }
        let mut image = Jbig2Image::new(rsi.width, rsi.height);
        let ghost img0 = image;
        let ghost w = rsi.width;
        let ghost h = rsi.height;
        let ghost st = image.stride as int;
        if params.mmr {
            if region_data.len() > 0x0FFF_FFFF {
                return Err(Jbig2Error::InvalidData("region data too large".to_owned()));
            }
            match mmr_region::decode_generic_mmr(region_data, &mut image) {
                Ok(_) => {},
                Err(e) => {
                    return Err(e);
                },
            }
            proof {
                let g = generic_region_p(d).unwrap().0;
                assert forall|px: int, py: int| #[trigger] (g.pix)(px, py) == image.spec_pixel(px, py) by {
                    if 0 <= px < w && 0 <= py < h {
                        crate::image::lemma_pixel_index(px, py, w as int, h as int, st);
                        assert(mmr_region::row_byte(image.data@, st, py, px / 8) == image.data@[py * st + px / 8]);
                        assert(mmr_region::row_byte(img0.data@, st, py, px / 8) == 0);
                    }
                }
                assert(g =~= img_p(image));
            }
        } else {
            let stats_size = generic::stats_size(params.gb_template);
            let mut gb_stats: Vec<ArithCx> = vec![0u8; stats_size];
            let mut as_ = match ArithState::new(region_data) {
                Ok(a) => a,
                Err(e) => {
                    return Err(e);
                },
            };
            let ghost stats0 = gb_stats@;
            proof {
                let p = choose|p: GenericRegionParams| gparams_read(d, p);
                crate::stream::lemma_gparams_unique(d, p, params);
                assert(stats0 =~= Seq::new(generic::spec_stats_size(params.gb_template) as nat, |i: int| 0u8));
                assert(img0.data@ =~= Seq::new((st * h) as nat, |i: int| 0u8));
            }
            match generic::decode_generic_region(&params, &mut as_, &mut image, gb_stats.as_mut_slice()) {
                Ok(()) => {},
                Err(e) => {
                    return Err(e);
                },
            }
            proof {
                let g = generic_region_p(d).unwrap().0;
                assert(g.pix =~= img_p(image).pix);
                assert(g =~= img_p(image));
            }
        }
        let op = compose_op_from_u8(rsi.op);
        let cur = self.current_page;
        let mut page = self.pages.remove(cur);
        let ghost p0 = page;
        proof {
            assert(old(self).pages@[cur as int].wf());
        }
        proof {
            assert(generic_region_p(d) == Some((img_p(image), rsi.x, rsi.y, op)));
        }
        let r = page.add_result(&image, rsi.x, rsi.y, op);
        self.pages.insert(cur, page);
        proof {
            assert forall|i: int| 0 <= i < self.pages@.len() implies (#[trigger] self.pages@[i]).wf() by {
                if i != cur {
                    assert(self.pages@[i] == old(self).pages@[i]);
                    assert(old(self).pages@[i].wf());
                }
            }
            if r is Ok {
                lemma_add_result_p(p0, image, rsi.x, rsi.y, op, page);
                assert(self.pages@[cur as int] == page);
            }
        }
        r
    }

    /// Decode an immediate refinement region segment (7.4.7) that refines the region of the
    /// current page at its position, and combine the result into the page.
    #[verifier::rlimit(100)]
    #[verifier::spinoff_prover]
    fn decode_immediate_refinement(&mut self, seg_idx: usize) -> (r: Result<(), Jbig2Error>)
        requires
            old(self).wf(),
            seg_idx < old(self).segments@.len(),
        ensures
            final(self).wf(),
            final(self).same_but_pages(&*old(self)),
            final(self).pages@.len() == old(self).pages@.len(),
            forall|i: int| 0 <= i < old(self).pages@.len() && i != old(self).current_page ==> final(self).pages@[i]
                == old(self).pages@[i],
            r is Ok ==> ({
                let cur = old(self).current_page as int;
                &&& crate::stream::refine_region_p(old(self).segments@[seg_idx as int].data@, page_p(old(self).pages@[cur])) matches Some((img, x, y, op))
                &&& add_result_p(page_p(old(self).pages@[cur]), img, x, y, op) == Some(page_p(final(self).pages@[cur]))
            }),
            r is Err ==> match crate::stream::refine_region_p(old(self).segments@[seg_idx as int].data@, page_p(old(self).pages@[old(self).current_page as int])) {
                None => true,
                Some((img, x, y, op)) => add_result_p(page_p(old(self).pages@[old(self).current_page as int]), img, x, y, op) is None,
            },
    {
        let data = &self.segments[seg_idx].data;
        if data.len() < 18 {
            return Err(Jbig2Error::InvalidData("refinement region segment too short".to_owned()));
        }
        let ghost d = data@;
        let rsi = match RegionSegmentInfo::parse(vstd::slice::slice_subrange(data.as_slice(), 0, 17)) {
            Ok(v) => v,
            Err(e) => {
                return Err(e);
            },
        };
        proof {
            let head = d.subrange(0, 17);
            assert(head[0] == d[0] && head[1] == d[1] && head[2] == d[2] && head[3] == d[3]);
            assert(head[4] == d[4] && head[5] == d[5] && head[6] == d[6] && head[7] == d[7]);
            assert(head[8] == d[8] && head[9] == d[9] && head[10] == d[10] && head[11] == d[11]);
            assert(head[12] == d[12] && head[13] == d[13] && head[14] == d[14] && head[15] == d[15]);
            assert(head[16] == d[16]);
        }
        let flags = data[17];
        let t = flags & 1;
        let n: usize = if t == 0 { 4 } else { 0 };
        if 18 + n > data.len() {
            return Err(Jbig2Error::InvalidData("refinement region segment too short".to_owned()));
        }
        let grat: [i8; 4] = if t == 0 {
            [data[18] as i8, data[19] as i8, data[20] as i8, data[21] as i8]
        } else {
            [0i8; 4]
        };
        if !image_fits(rsi.width, rsi.height) {
            return Err(Jbig2Error::InvalidData("region too large".to_owned()));
        }
        let cur = self.current_page;
        let reference = match &self.pages[cur].image {
            None => {
                return Err(Jbig2Error::InvalidData("page has no image".to_owned()));
            },
            Some(img) => img.duplicate(),
        };
        proof {
            assert(old(self).pages@[cur as int].wf());
        }
        let params = RefinementRegionParams {
            gr_template: t,
            reference,
            reference_dx: 0i32.wrapping_sub(rsi.x as i32),
            reference_dy: 0i32.wrapping_sub(rsi.y as i32),
            tpgron: flags & 2 != 0,
            grat,
        };
        proof {
            assert(crate::stream::rparams_read(d, params));
        }
        let region_data = vstd::slice::slice_subrange(data.as_slice(), 18 + n, data.len());
        let mut as_ = match ArithState::new(region_data) {
            Ok(a) => a,
            Err(e) => {
                return Err(e);
            },
        };
        let mut image = Jbig2Image::new(rsi.width, rsi.height);
        let ghost img0 = image;
        let ghost w = rsi.width;
        let ghost h = rsi.height;
        let ghost st = image.stride as int;
        let mut gr_stats: Vec<ArithCx> = vec![0u8; crate::refinement::refinement_stats_size(t)];
        let ghost stats0 = gr_stats@;
        let ghost regs0 = as_.regs();
        proof {
            assert(stats0 =~= Seq::new(crate::refinement::spec_refinement_stats_size(t) as nat, |i: int| 0u8));
            assert(img0.data@ =~= Seq::new((st * h) as nat, |i: int| 0u8));
            assert(region_data@ == d.subrange(18 + n as int, d.len() as int));
        }
        match crate::refinement::decode_refinement_region(&params, &mut as_, &mut image, gr_stats.as_mut_slice()) {
            Ok(()) => {},
            Err(e) => {
                proof {
                    let pi = page_p(old(self).pages@[cur as int]).image.unwrap();
                    let rr = choose|rr: Jbig2Image| rr.wf() && img_p(rr) == pi;
                    assert(params.reference.wf() && img_p(params.reference) == pi) by {
                        assert(img_p(params.reference) =~= pi);
                    }
                    let p0 = choose|p: RefinementRegionParams| crate::stream::rparams_read(d, p);
                    let pm = RefinementRegionParams { reference: rr, ..p0 };
                    assert forall|x: int, y: int| #[trigger] pm.reference.spec_pixel(x, y) == params.reference.spec_pixel(x, y) by {
                        assert((img_p(rr).pix)(x, y) == (img_p(params.reference).pix)(x, y));
                    }
                    assert(pm.grat =~= params.grat);
                    crate::refinement::lemma_refinement_congr(region_data@, crate::generic::RegionState { regs: regs0, stats: stats0, data: img0.data@ }, pm, params, w as int, h as int, st);
                }
                return Err(e);
            },
        }
        proof {
            let pi = page_p(old(self).pages@[cur as int]).image.unwrap();
            let rr = choose|rr: Jbig2Image| rr.wf() && img_p(rr) == pi;
            assert(params.reference.wf() && img_p(params.reference) == pi) by {
                assert(img_p(params.reference) =~= pi);
            }
            let p0 = choose|p: RefinementRegionParams| crate::stream::rparams_read(d, p);
            let pm = RefinementRegionParams { reference: rr, ..p0 };
            assert forall|x: int, y: int| #[trigger] pm.reference.spec_pixel(x, y) == params.reference.spec_pixel(x, y) by {
                assert((img_p(rr).pix)(x, y) == (img_p(params.reference).pix)(x, y));
            }
            assert(pm.grat =~= params.grat);
            crate::refinement::lemma_refinement_congr(region_data@, crate::generic::RegionState { regs: regs0, stats: stats0, data: img0.data@ }, pm, params, w as int, h as int, st);
            let g = crate::stream::refine_region_p(d, page_p(old(self).pages@[cur as int])).unwrap().0;
            assert(g.pix =~= img_p(image).pix);
            assert(g =~= img_p(image));
        }
        let op = compose_op_from_u8(rsi.op);
        let mut page = self.pages.remove(cur);
        let ghost p0 = page;
        proof {
            assert(crate::stream::refine_region_p(d, page_p(old(self).pages@[cur as int])) == Some((img_p(image), rsi.x, rsi.y, op)));
        }
        let r = page.add_result(&image, rsi.x, rsi.y, op);
        self.pages.insert(cur, page);
        proof {
            assert forall|i: int| 0 <= i < self.pages@.len() implies (#[trigger] self.pages@[i]).wf() by {
                if i != cur {
                    assert(self.pages@[i] == old(self).pages@[i]);
                    assert(old(self).pages@[i].wf());
                }
            }
            if r is Ok {
                lemma_add_result_p(p0, image, rsi.x, rsi.y, op, page);
                assert(self.pages@[cur as int] == page);
            }
        }
        r
    }

    /// Decode a symbol dictionary segment: the segment gets a dictionary of SDNUMNEWSYMS
    /// empty slots (glyph bitmaps are not decoded).
    fn decode_symbol_dictionary(&mut self, seg_idx: usize) -> (r: Result<(), Jbig2Error>)
        requires
            old(self).wf(),
            seg_idx < old(self).segments@.len(),
        ensures
            final(self).wf(),
            r is Ok,
            final(self).state == old(self).state,
            final(self).buf@ == old(self).buf@,
            final(self).pages@ == old(self).pages@,
            final(self).global_segments@ == old(self).global_segments@,
            final(self).segment_index == old(self).segment_index,
            final(self).current_page == old(self).current_page,
            ({
                let seg = old(self).segments@[seg_idx as int];
                match new_symbol_count(seg.data@) {
                    None => final(self).segments@ == old(self).segments@,
                    Some(n) => {
                        &&& final(self).segments@.len() == old(self).segments@.len()
                        &&& forall|i: int|
                            0 <= i < old(self).segments@.len() && i != seg_idx ==> final(self).segments@[i]
                                == old(self).segments@[i]
                        &&& final(self).segments@[seg_idx as int].header == seg.header
                        &&& final(self).segments@[seg_idx as int].data@ == seg.data@
                        &&& final(self).segments@[seg_idx as int].symbol_dict matches Some(d) && d.glyphs@.len() == n
                            && forall|i: int| 0 <= i < n ==> d.glyphs@[i] is None
                    },
                }
            }),
    {
        let n_refs = self.segments[seg_idx].header.referred_to_segments.len();
        let mut sdnuminsyms: u32 = 0;
        let mut k: usize = 0;
        while k < n_refs
            invariant
                *self == *old(self),
                old(self).wf(),
                seg_idx < self.segments@.len(),
                n_refs == self.segments@[seg_idx as int].header.referred_to_segments@.len(),
                k <= n_refs,
            decreases n_refs - k,
        {
            let ref_seg_num = self.segments[seg_idx].header.referred_to_segments[k];
            proof {
                lemma_lookup_ok(self.segments@, self.global_segments@, ref_seg_num);
            }
            match self.find_segment(ref_seg_num) {
                Some(seg) => match &seg.symbol_dict {
                    Some(sd) => {
                        sdnuminsyms = sdnuminsyms.wrapping_add(sd.n_symbols());
                    },
                    None => {},
                },
                None => {},
            }
            k += 1;
        }
        let parsed = SymbolDictParams::parse(self.segments[seg_idx].data.as_slice());
        match parsed {
            Some((mut params, _offset)) => {
                params.sdnuminsyms = sdnuminsyms;
                let dict = SymbolDict::new(params.sdnumnewsyms);
                let mut seg = self.segments.remove(seg_idx);
                seg.symbol_dict = Some(dict);
                self.segments.insert(seg_idx, seg);
                proof {
                    assert forall|i: int| 0 <= i < self.segments@.len() implies dict_ok(
                        (#[trigger] self.segments@[i]).symbol_dict,
                    ) by {
                        if i != seg_idx {
                            assert(self.segments@[i] == old(self).segments@[i]);
                        }
                    }
                }
            },
            None => {},
        }
        Ok(())
    }
}

impl Decoder {
    /// Decode an immediate text region segment with the symbol dictionaries of the
    /// segments it refers to, and combine it into the current page.
    #[verifier::rlimit(100)]
    #[verifier::spinoff_prover]
    fn decode_immediate_text(&mut self, seg_idx: usize) -> (r: Result<(), Jbig2Error>)
        requires
            old(self).wf(),
            seg_idx < old(self).segments@.len(),
        ensures
            final(self).wf(),
            final(self).same_but_pages(&*old(self)),
            final(self).pages@.len() == old(self).pages@.len(),
            forall|i: int| 0 <= i < old(self).pages@.len() && i != old(self).current_page ==> final(self).pages@[i]
                == old(self).pages@[i],
            old(self).segments@[seg_idx as int].data@.len() < 17 ==> (r matches Err(e) && e is InvalidData)
                && final(self).pages@ == old(self).pages@,
            r is Ok ==> ({
                let cur = old(self).current_page as int;
                let segs = old(self).segments@;
                let dv = text_dicts(
                    head_numbers(heads_of(segs)),
                    dicts_of(segs),
                    nums_of(old(self).global_segments@),
                    dicts_of(old(self).global_segments@),
                    segs[seg_idx as int].header.referred_to_segments@,
                );
                match text_region_p(segs[seg_idx as int].data@, dv) {
                    None => false,
                    Some(None) => final(self).pages@ == old(self).pages@,
                    Some(Some((img, x, y, op))) => add_result_p(page_p(old(self).pages@[cur]), img, x, y, op) == Some(
                        page_p(final(self).pages@[cur]),
                    ),
                }
            }),
            r is Err ==> ({
                let cur = old(self).current_page as int;
                let segs = old(self).segments@;
                let dv = text_dicts(
                    head_numbers(heads_of(segs)),
                    dicts_of(segs),
                    nums_of(old(self).global_segments@),
                    dicts_of(old(self).global_segments@),
                    segs[seg_idx as int].header.referred_to_segments@,
                );
                match text_region_p(segs[seg_idx as int].data@, dv) {
                    None => true,
                    Some(None) => false,
                    Some(Some((img, x, y, op))) => add_result_p(page_p(old(self).pages@[cur]), img, x, y, op) is None,
                }
            }),
    {
        let data = &self.segments[seg_idx].data;
        if data.len() < 17 {
            return Err(Jbig2Error::InvalidData("text region segment too short".to_owned()));
        }
        let ghost d = data@;
        let rsi = match RegionSegmentInfo::parse(vstd::slice::slice_subrange(data.as_slice(), 0, 17)) {
            Ok(v) => v,
            Err(e) => {
                return Err(e);
            },
        };
        proof {
            let head = d.subrange(0, 17);
            assert(head[0] == d[0] && head[1] == d[1] && head[2] == d[2] && head[3] == d[3]);
            assert(head[4] == d[4] && head[5] == d[5] && head[6] == d[6] && head[7] == d[7]);
            assert(head[8] == d[8] && head[9] == d[9] && head[10] == d[10] && head[11] == d[11]);
            assert(head[12] == d[12] && head[13] == d[13] && head[14] == d[14] && head[15] == d[15]);
            assert(head[16] == d[16]);
        }
        let referred = &self.segments[seg_idx].header.referred_to_segments;
        let ghost refs = referred@;
        let ghost nums = head_numbers(heads_of(self.segments@));
        let ghost ldicts = dicts_of(self.segments@);
        let ghost gnums = nums_of(self.global_segments@);
        let ghost gdicts = dicts_of(self.global_segments@);
        let mut dicts: Vec<&SymbolDict> = Vec::new();
        let mut k: usize = 0;
        while k < referred.len()
            invariant
                k <= referred@.len(),
                refs == referred@,
                nums == head_numbers(heads_of(self.segments@)),
                ldicts == dicts_of(self.segments@),
                gnums == nums_of(self.global_segments@),
                gdicts == dicts_of(self.global_segments@),
                segments_ok(self.segments@),
                segments_ok(self.global_segments@),
                forall|j: int| 0 <= j < dicts@.len() ==> dict_ok(Some(*(#[trigger] dicts@[j]))),
                dict_views(dicts@) == text_dicts(nums, ldicts, gnums, gdicts, refs.take(k as int)),
            decreases referred@.len() - k,
        {
            let n = referred[k];
            proof {
                lemma_lookup_ok(self.segments@, self.global_segments@, n);
                lemma_dict_of_ref(self.segments@, self.global_segments@, n);
                assert(refs.take(k + 1).drop_last() =~= refs.take(k as int));
                assert(refs.take(k + 1).last() == n);
            }
            let ghost before = dicts@;
            match find_segment_in(self.segments.as_slice(), self.global_segments.as_slice(), n) {
                Some(seg) => match &seg.symbol_dict {
                    Some(sd) => {
                        dicts.push(sd);
                        proof {
                            assert(dict_views(dicts@) =~= dict_views(before).push(sd@));
                        }
                    },
                    None => {},
                },
                None => {},
            }
            k += 1;
        }
        proof {
            assert(refs.take(refs.len() as int) =~= refs);
        }
        let ghost dv = dict_views(dicts@);
        let rest = vstd::slice::slice_subrange(data.as_slice(), 17, data.len());
        match TextRegionParams::parse(rest) {
            Some((params, offset)) => {
                let region_data = vstd::slice::slice_subrange(rest, offset, rest.len());
                let mut sbnumsyms: u32 = 0;
                let mut j: usize = 0;
                while j < dicts.len()
                    invariant
                        j <= dicts@.len(),
                        forall|i: int| 0 <= i < dicts@.len() ==> dict_ok(Some(*(#[trigger] dicts@[i]))),
                        dv == dict_views(dicts@),
                        sbnumsyms == wrap_total(dv.take(j as int)),
                    decreases dicts@.len() - j,
                {
                    proof {
                        assert(dv.take(j + 1).drop_last() =~= dv.take(j as int));
                        assert(dv.take(j + 1).last() == dicts@[j as int]@);
                        assert(dicts@[j as int]@.len() == dicts@[j as int].glyphs@.len());
                    }
                    sbnumsyms = sbnumsyms.wrapping_add(dicts[j].n_symbols());
                    j += 1;
                }
                proof {
                    assert(dv.take(dv.len() as int) =~= dv);
                }
                if !image_fits(rsi.width, rsi.height) {
                    return Err(Jbig2Error::InvalidData("region too large".to_owned()));
                }
                let mut image = Jbig2Image::new(rsi.width, rsi.height);
                let ghost img0 = image;
                let ghost w = rsi.width;
                let ghost h = rsi.height;
                if !params.sbhuff && sbnumsyms > 0 {
                    let mut as_ = match ArithState::new(region_data) {
                        Ok(a) => a,
                        Err(e) => {
                            return Err(e);
                        },
                    };
                    let ghost regs0 = as_.regs();
                    proof {
                        assert forall|kk: int, i: int|
                            0 <= kk < dicts@.len() && 0 <= i < dicts@[kk].glyphs@.len() && dicts@[kk].glyphs@[i] is Some
                                implies (#[trigger] dicts@[kk].glyphs@[i]).unwrap().wf() by {
                            assert(dict_ok(Some(*dicts@[kk])));
                        }
                        assert forall|kk: int| 0 <= kk < dicts@.len() implies (#[trigger] dicts@[kk]).wf() by {
                            assert(dict_ok(Some(*dicts@[kk])));
                        }
                    }
                    match crate::text::decode_text_region(&params, &mut as_, &mut image, dicts.as_slice(), sbnumsyms) {
                        Ok(()) => {},
                        Err(e) => {
                            return Err(e);
                        },
                    }
                    proof {
                        let rd = rest@.subrange(offset as int, rest@.len() as int);
                        let n = crate::text::instances_offset(crate::bytes::be_u16(rest@, 0)) + 4;
                        let p = choose|p: TextRegionParams| crate::text::text_params_read(rest@, p, n);
                        crate::stream::lemma_tparams_unique(rest@, n, p, params);
                        let ds = choose|ds: Seq<&SymbolDict>| dict_views(ds) == dv;
                        let cl = crate::text::sym_code_len(sbnumsyms);
                        let pix0 = |px: int, py: int|
                            if params.sbdefpixel && 0 <= px < w && 0 <= py < h {
                                1u8
                            } else {
                                0u8
                            };
                        assert(crate::text::filled_pixels(img0, params.sbdefpixel) =~= pix0);
                        crate::stream::lemma_text_from_congr(
                            rd,
                            params,
                            dicts@,
                            ds,
                            w as int,
                            h as int,
                            cl,
                            crate::text::initial_stript_step(rd, params, crate::text::text_start(regs0, cl, pix0)),
                            crate::text::TextPhase::Strip,
                            0,
                        );
                        let g = text_region_p(d, dv).unwrap().unwrap().0;
                        assert(rest@ == d.subrange(17, d.len() as int));
                        assert(g.pix =~= img_p(image).pix);
                        assert(g =~= img_p(image));
                    }
                } else {
                    proof {
                        let g = text_region_p(d, dv).unwrap().unwrap().0;
                        assert(rest@ == d.subrange(17, d.len() as int));
                        assert(g.pix =~= img_p(image).pix);
                        assert(g =~= img_p(image));
                    }
                }
                let op = compose_op_from_u8(rsi.op);
                let cur = self.current_page;
                let mut page = self.pages.remove(cur);
                let ghost p0 = page;
                proof {
                    assert(old(self).pages@[cur as int].wf());
                    assert(text_region_p(d, dv) == Some(Some((img_p(image), rsi.x, rsi.y, op))));
                }
                let r = page.add_result(&image, rsi.x, rsi.y, op);
                self.pages.insert(cur, page);
                proof {
                    assert forall|i: int| 0 <= i < self.pages@.len() implies (#[trigger] self.pages@[i]).wf() by {
                        if i != cur {
                            assert(self.pages@[i] == old(self).pages@[i]);
                            assert(old(self).pages@[i].wf());
                        }
                    }
                    if r is Ok {
                        lemma_add_result_p(p0, image, rsi.x, rsi.y, op, page);
                        assert(self.pages@[cur as int] == page);
                    }
                }
                r
            },
            None => {
                proof {
                    assert(rest@ == d.subrange(17, d.len() as int));
                }
                Ok(())
            },
        }
    }
}

/// The segment types the decoder refuses.
pub open spec fn refused_type(t: Option<SegmentType>) -> bool {
    t == Some(SegmentType::IntermediateGenericRegion) || t == Some(SegmentType::ColorPalette)
}

/// The segment types that render a region onto the current page or define a dictionary.
pub open spec fn region_type(t: Option<SegmentType>) -> bool {
    ||| t == Some(SegmentType::ImmediateGenericRegion)
    ||| t == Some(SegmentType::ImmediateLosslessGenericRegion)
    ||| t == Some(SegmentType::ImmediateTextRegion)
    ||| t == Some(SegmentType::ImmediateLosslessTextRegion)
    ||| t == Some(SegmentType::SymbolDictionary)
    ||| t == Some(SegmentType::ImmediateGenericRefinementRegion)
    ||| t == Some(SegmentType::ImmediateLosslessGenericRefinementRegion)
}

/// The segment types with an effect of their own on pages or on the decoder state.
pub open spec fn control_type(t: Option<SegmentType>) -> bool {
    ||| t == Some(SegmentType::PageInformation)
    ||| t == Some(SegmentType::EndOfPage)
    ||| t == Some(SegmentType::EndOfStripe)
    ||| t == Some(SegmentType::EndOfFile)
}

impl Decoder {
    /// Handle a code table segment: check its table.
    fn code_table_segment(&self, seg_idx: usize) -> (r: Result<(), Jbig2Error>)
        requires
            self.wf(),
            seg_idx < self.segments@.len(),
            self.segments@[seg_idx as int].header.seg_type == Some(SegmentType::CodeTable),
        ensures
            r is Ok <==> crate::stream::table_ok(self.segments@[seg_idx as int].data@),
            ({
                let f = self.frame();
                let hs = handle_segment(f.heads, f.datas, f.dicts, seg_idx as int, f.doc);
                &&& r is Ok ==> hs == Some(crate::stream::Handled { doc: f.doc, dicts: f.dicts, eof: false })
                &&& r is Err ==> hs is None
            }),
    {
        proof {
            let f = self.frame();
            crate::stream::lemma_handle_table(f.heads, f.datas, f.dicts, seg_idx as int, f.doc);
            assert(f.datas[seg_idx as int] == self.segments@[seg_idx as int].data@);
        }
        check_code_table(self.segments[seg_idx].data.as_slice())
    }

    /// Handle an immediate refinement region segment: refused when it refers to other
    /// segments, else decoded against the current page.
    fn refine_segment(&mut self, seg_idx: usize) -> (r: Result<(), Jbig2Error>)
        requires
            old(self).wf(),
            seg_idx < old(self).segments@.len(),
            old(self).segments@[seg_idx as int].header.seg_type == Some(SegmentType::ImmediateGenericRefinementRegion)
                || old(self).segments@[seg_idx as int].header.seg_type == Some(
                SegmentType::ImmediateLosslessGenericRefinementRegion,
            ),
        ensures
            final(self).wf(),
            final(self).same_but_pages(&*old(self)),
            r is Ok ==> ({
                let f = old(self).frame();
                &&& handle_segment(f.heads, f.datas, f.dicts, seg_idx as int, f.doc) matches Some(hd)
                &&& final(self).frame() == (Frame { state: f.state, dicts: hd.dicts, doc: hd.doc, ..f })
            }),
            r is Err ==> ({
                let f = old(self).frame();
                handle_segment(f.heads, f.datas, f.dicts, seg_idx as int, f.doc) is None
            }),
    {
        proof {
            let f = old(self).frame();
            crate::stream::lemma_handle_refine(f.heads, f.datas, f.dicts, seg_idx as int, f.doc);
            assert(f.heads[seg_idx as int].refs == self.segments@[seg_idx as int].header.referred_to_segments@);
        }
        if self.segments[seg_idx].header.referred_to_segments.len() > 0 {
            return Err(Jbig2Error::UnsupportedFeature("refinement of a referred region".to_owned()));
        }
        let r = self.decode_immediate_refinement(seg_idx);
        proof {
            if r is Ok {
                let f = old(self).frame();
                let cur = old(self).current_page as int;
                assert(self.pages@ =~= old(self).pages@.update(cur, self.pages@[cur]));
                lemma_pages_of_update(old(self).pages@, cur, self.pages@[cur]);
            }
        }
        r
    }

    /// Handle a page information segment: the first free page (a new one when there is
    /// none) becomes the current page and reads the information.
    #[verifier::rlimit(100)]
    #[verifier::spinoff_prover]
    fn page_info_segment(&mut self, seg_idx: usize) -> (r: Result<(), Jbig2Error>)
        requires
            old(self).wf(),
            seg_idx < old(self).segments@.len(),
            old(self).segments@[seg_idx as int].header.seg_type == Some(SegmentType::PageInformation),
        ensures
            final(self).wf(),
            final(self).buf@ == old(self).buf@,
            final(self).global_segments@ == old(self).global_segments@,
            final(self).segment_index == old(self).segment_index,
            final(self).segments@ == old(self).segments@,
            final(self).state == old(self).state,
            r is Ok ==> ({
                let f = old(self).frame();
                &&& handle_segment(f.heads, f.datas, f.dicts, seg_idx as int, f.doc) matches Some(hd)
                &&& final(self).frame() == (Frame {
                    state: if hd.eof { DecoderState::Eof } else { f.state },
                    dicts: hd.dicts,
                    doc: hd.doc,
                    ..f
                })
            }),
            r is Err ==> ({
                let f = old(self).frame();
                handle_segment(f.heads, f.datas, f.dicts, seg_idx as int, f.doc) is None
            }),
            ({
                let seg = old(self).segments@[seg_idx as int];
                let k = first_free(old(self).pages@);
                let pages1 = if k < old(self).pages@.len() {
                    old(self).pages@
                } else {
                    old(self).pages@.push(blank_page())
                };
                &&& final(self).current_page == k
                &&& final(self).pages@.len() == pages1.len()
                &&& page_info_read(pages1[k], seg.header.page_association, seg.data@, final(self).pages@[k], r)
                &&& final(self).pages@ == pages1.update(k, final(self).pages@[k])
            }),
    {
        let page_assoc = self.segments[seg_idx].header.page_association;
        let data = self.segments[seg_idx].data.clone();
        assert(data@ =~= self.segments@[seg_idx as int].data@);
        proof {
            lemma_first_free(self.pages@);
        }
        self.ensure_page(page_assoc);
        let cur = self.current_page;
        let ghost pages1 = self.pages@;
        let mut page = self.pages.remove(cur);
        let ghost p0 = page;
        assert(p0 == pages1[cur as int]);
        assert(p0.wf());
        let r = page.parse_info(page_assoc, data.as_slice());
        self.pages.insert(cur, page);
        proof {
            assert(self.pages@ =~= pages1.update(cur as int, page));
            assert forall|i: int| 0 <= i < self.pages@.len() implies (#[trigger] self.pages@[i]).wf() by {
                if i != cur {
                    assert(self.pages@[i] == pages1[i]);
                }
            }
            if r is Ok {
                let f = old(self).frame();
                lemma_handle_page_info(f.heads, f.datas, f.dicts, seg_idx as int, f.doc);
                lemma_first_free_p(old(self).pages@);
                lemma_pages_of_push(old(self).pages@, blank_page());
                lemma_page_info_p(p0, page_assoc, data@, page);
                lemma_pages_of_update(pages1, cur as int, page);
                let k = first_free_p(f.doc.pages);
                assert(k == cur);
                let mp1 = if k < f.doc.pages.len() { f.doc.pages } else { f.doc.pages.push(page_p(blank_page())) };
                assert(pages_of(pages1) == mp1);
                assert(mp1[k] == page_p(p0));
                assert(f.heads[seg_idx as int].page == page_assoc);
                assert(f.datas[seg_idx as int] == data@);
                assert(pages_of(self.pages@) == mp1.update(k, page_p(page)));
                assert(self.frame() == (Frame { doc: DocP { pages: pages_of(self.pages@), current: cur as int, ..f.doc }, ..f }));
                assert(page_info_p(mp1[k], page_assoc, data@) == Some(page_p(page)));
                assert(handle_segment(f.heads, f.datas, f.dicts, seg_idx as int, f.doc) == Some(Handled {
                    doc: DocP { pages: mp1.update(k, page_p(page)), current: k, ..f.doc },
                    dicts: f.dicts,
                    eof: false,
                }));
                assert({
                    &&& handle_segment(f.heads, f.datas, f.dicts, seg_idx as int, f.doc) matches Some(hd)
                    &&& self.frame() == (Frame {
                        state: if hd.eof { DecoderState::Eof } else { f.state },
                        dicts: hd.dicts,
                        doc: hd.doc,
                        ..f
                    })
                });
            } else {
                let f = old(self).frame();
                lemma_handle_page_info(f.heads, f.datas, f.dicts, seg_idx as int, f.doc);
                lemma_first_free_p(old(self).pages@);
                lemma_pages_of_push(old(self).pages@, blank_page());
                let k = first_free_p(f.doc.pages);
                let mp1 = if k < f.doc.pages.len() { f.doc.pages } else { f.doc.pages.push(page_p(blank_page())) };
                assert(pages_of(pages1) == mp1);
                assert(mp1[k] == page_p(p0));
                assert(f.datas[seg_idx as int] == data@);
                assert(page_info_p(mp1[k], page_assoc, data@) is None);
            }
        }
        r
    }

    /// Handle a segment of a region or dictionary type.
    #[verifier::rlimit(100)]
    #[verifier::spinoff_prover]
    fn dispatch_region(&mut self, seg_idx: usize) -> (r: Result<(), Jbig2Error>)
        requires
            old(self).wf(),
            seg_idx < old(self).segments@.len(),
            region_type(old(self).segments@[seg_idx as int].header.seg_type),
        ensures
            final(self).wf(),
            final(self).buf@ == old(self).buf@,
            final(self).global_segments@ == old(self).global_segments@,
            final(self).segment_index == old(self).segment_index,
            final(self).segments@.len() == old(self).segments@.len(),
            forall|i: int|
                0 <= i < old(self).segments@.len() ==> (#[trigger] final(self).segments@[i]).header == old(self).segments@[i].header
                    && final(self).segments@[i].data@ == old(self).segments@[i].data@,
            final(self).state == old(self).state,
            final(self).current_page == old(self).current_page,
            r is Ok ==> ({
                let f = old(self).frame();
                &&& handle_segment(f.heads, f.datas, f.dicts, seg_idx as int, f.doc) matches Some(hd)
                &&& final(self).frame() == (Frame { state: f.state, dicts: hd.dicts, doc: hd.doc, ..f })
            }),
            r is Err ==> ({
                let f = old(self).frame();
                handle_segment(f.heads, f.datas, f.dicts, seg_idx as int, f.doc) is None
            }),
    {
        let seg_type = self.segments[seg_idx].header.seg_type;
        match seg_type {
            Some(SegmentType::ImmediateGenericRegion) | Some(SegmentType::ImmediateLosslessGenericRegion) => {
                let r = self.decode_immediate_generic(seg_idx);
                proof {
                    let f0 = old(self).frame();
                    lemma_handle_generic(f0.heads, f0.datas, f0.dicts, seg_idx as int, f0.doc);
                    if r is Ok {
                        let f = old(self).frame();
                        let cur = old(self).current_page as int;
                        lemma_handle_generic(f.heads, f.datas, f.dicts, seg_idx as int, f.doc);
                        assert(self.pages@ =~= old(self).pages@.update(cur, self.pages@[cur]));
                        lemma_pages_of_update(old(self).pages@, cur, self.pages@[cur]);
                    }
                }
                r
            },
            Some(SegmentType::SymbolDictionary) => {
                let r = self.decode_symbol_dictionary(seg_idx);
                proof {
                    let f = old(self).frame();
                    lemma_handle_symbols(f.heads, f.datas, f.dicts, seg_idx as int, f.doc);
                    let seg = old(self).segments@[seg_idx as int];
                    match new_symbol_count(seg.data@) {
                        None => {},
                        Some(n) => {
                            let ns = self.segments@[seg_idx as int];
                            assert(ns.symbol_dict.unwrap()@ =~= empty_dict(n as nat));
                            assert(self.segments@ =~= old(self).segments@.update(seg_idx as int, ns));
                            lemma_segs_update(old(self).segments@, seg_idx as int, ns);
                            assert(seg_head(ns) == seg_head(seg));
                            assert(seg_bytes(ns) == seg_bytes(seg));
                            assert(heads_of(self.segments@) =~= f.heads);
                            assert(datas_of(self.segments@) =~= f.datas);
                        },
                    }
                }
                r
            },
            Some(SegmentType::ImmediateTextRegion) | Some(SegmentType::ImmediateLosslessTextRegion) => {
                let r = self.decode_immediate_text(seg_idx);
                proof {
                    let f0 = old(self).frame();
                    lemma_handle_text(f0.heads, f0.datas, f0.dicts, seg_idx as int, f0.doc);
                    if r is Ok {
                        let f = old(self).frame();
                        let cur = old(self).current_page as int;
                        lemma_handle_text(f.heads, f.datas, f.dicts, seg_idx as int, f.doc);
                        assert(self.pages@ =~= old(self).pages@.update(cur, self.pages@[cur]));
                        lemma_pages_of_update(old(self).pages@, cur, self.pages@[cur]);
                    }
                }
                r
            },
            Some(SegmentType::ImmediateGenericRefinementRegion) | Some(
                SegmentType::ImmediateLosslessGenericRefinementRegion,
            ) => self.refine_segment(seg_idx),
            _ => {
                assert(false);
                Ok(())
            },
        }
    }

    /// Handle the segment at `seg_idx`, whose data has been read.
    #[verifier::rlimit(100)]
    #[verifier::spinoff_prover]
    fn dispatch_segment(&mut self, seg_idx: usize) -> (r: Result<(), Jbig2Error>)
        requires
            old(self).wf(),
            seg_idx < old(self).segments@.len(),
        ensures
            final(self).wf(),
            final(self).buf@ == old(self).buf@,
            final(self).global_segments@ == old(self).global_segments@,
            final(self).segment_index == old(self).segment_index,
            final(self).segments@.len() == old(self).segments@.len(),
            forall|i: int|
                0 <= i < old(self).segments@.len() ==> (#[trigger] final(self).segments@[i]).header == old(self).segments@[i].header
                    && final(self).segments@[i].data@ == old(self).segments@[i].data@,
            final(self).state == old(self).state || final(self).state == DecoderState::Eof,
            r is Ok ==> ({
                let f = old(self).frame();
                &&& handle_segment(f.heads, f.datas, f.dicts, seg_idx as int, f.doc) matches Some(hd)
                &&& final(self).frame() == (Frame {
                    state: if hd.eof { DecoderState::Eof } else { f.state },
                    dicts: hd.dicts,
                    doc: hd.doc,
                    ..f
                })
            }),
            r is Err ==> ({
                let f = old(self).frame();
                handle_segment(f.heads, f.datas, f.dicts, seg_idx as int, f.doc) is None
            }),
            ({
                let seg = old(self).segments@[seg_idx as int];
                let t = seg.header.seg_type;
                let cur = old(self).current_page as int;
                let p = old(self).pages@[cur];
                &&& t == Some(SegmentType::EndOfFile) ==> r is Ok && final(self).state == DecoderState::Eof
                    && final(self).pages@ == old(self).pages@
                &&& t != Some(SegmentType::EndOfFile) ==> final(self).state == old(self).state
                &&& t == Some(SegmentType::EndOfPage) ==> r is Ok && final(self).pages@ == old(self).pages@.update(
                    cur,
                    Page { state: PageState::Complete, ..p },
                )
                &&& t == Some(SegmentType::EndOfStripe) ==> r is Ok && final(self).pages@ == if seg.data@.len() >= 4 {
                    old(self).pages@.update(cur, Page { end_row: be_u32(seg.data@, 0), ..p })
                } else {
                    old(self).pages@
                }
                &&& t == Some(SegmentType::PageInformation) ==> {
                    let k = first_free(old(self).pages@);
                    let pages1 = if k < old(self).pages@.len() {
                        old(self).pages@
                    } else {
                        old(self).pages@.push(blank_page())
                    };
                    &&& final(self).current_page == k
                    &&& final(self).pages@.len() == pages1.len()
                    &&& page_info_read(pages1[k], seg.header.page_association, seg.data@, final(self).pages@[k], r)
                    &&& forall|i: int| 0 <= i < pages1.len() && i != k ==> final(self).pages@[i] == pages1[i]
                }
                &&& refused_type(t) ==> (r matches Err(e) && e is UnsupportedFeature) && final(self).pages@
                    == old(self).pages@
                &&& !refused_type(t) && !region_type(t) && !control_type(t) ==> final(self).pages@ == old(self).pages@
                    && final(self).segments@ == old(self).segments@
                &&& !refused_type(t) && !region_type(t) && !control_type(t) && t != Some(SegmentType::CodeTable) ==> r is Ok
                &&& t == Some(SegmentType::CodeTable) ==> (r is Ok <==> crate::stream::table_ok(seg.data@))
                &&& t != Some(SegmentType::PageInformation) ==> final(self).current_page == old(self).current_page
            }),
    {
        let seg_type = self.segments[seg_idx].header.seg_type;
        match seg_type {
            Some(SegmentType::PageInformation) => {
                let ghost s0 = *self;
                let r = self.page_info_segment(seg_idx);
                proof {
                    assert(s0 == *old(self));
                    let k = first_free(old(self).pages@);
                    let pages1 = if k < old(self).pages@.len() {
                        old(self).pages@
                    } else {
                        old(self).pages@.push(blank_page())
                    };
                    assert(self.pages@ == pages1.update(k, self.pages@[k]));
                    assert forall|i: int| 0 <= i < pages1.len() && i != k implies self.pages@[i] == pages1[i] by {
                        assert(pages1.update(k, self.pages@[k])[i] == pages1[i]);
                    }
                }
                r
            },
            Some(SegmentType::EndOfPage) => {
                let cur = self.current_page;
                let mut page = self.pages.remove(cur);
                page.complete();
                self.pages.insert(cur, page);
                proof {
                    assert(self.pages@ =~= old(self).pages@.update(cur as int, Page { state: PageState::Complete, ..old(self).pages@[cur as int] }));
                    assert forall|i: int| 0 <= i < self.pages@.len() implies (#[trigger] self.pages@[i]).wf() by {
                        assert(old(self).pages@[i].wf());
                    }
                    let f = old(self).frame();
                    lemma_handle_control(f.heads, f.datas, f.dicts, seg_idx as int, f.doc);
                    lemma_pages_of_update(old(self).pages@, cur as int, Page { state: PageState::Complete, ..old(self).pages@[cur as int] });
                }
                Ok(())
            },
            Some(SegmentType::EndOfStripe) => {
                let data = &self.segments[seg_idx].data;
                if data.len() >= 4 {
                    let end_row = crate::bytes::read_u32_be(data.as_slice(), 0);
                    let cur = self.current_page;
                    let mut page = self.pages.remove(cur);
                    page.set_end_row(end_row);
                    self.pages.insert(cur, page);
                    proof {
                        assert(self.pages@ =~= old(self).pages@.update(cur as int, Page { end_row, ..old(self).pages@[cur as int] }));
                        assert forall|i: int| 0 <= i < self.pages@.len() implies (#[trigger] self.pages@[i]).wf() by {
                            assert(old(self).pages@[i].wf());
                        }
                        lemma_pages_of_update(old(self).pages@, cur as int, Page { end_row, ..old(self).pages@[cur as int] });
                    }
                }
                proof {
                    let f = old(self).frame();
                    lemma_handle_control(f.heads, f.datas, f.dicts, seg_idx as int, f.doc);
                }
                Ok(())
            },
            Some(SegmentType::EndOfFile) => {
                self.state = DecoderState::Eof;
                proof {
                    let f = old(self).frame();
                    lemma_handle_control(f.heads, f.datas, f.dicts, seg_idx as int, f.doc);
                }
                Ok(())
            },
            Some(SegmentType::ImmediateGenericRegion) | Some(SegmentType::ImmediateLosslessGenericRegion) | Some(
                SegmentType::SymbolDictionary,
            ) | Some(SegmentType::ImmediateTextRegion) | Some(SegmentType::ImmediateLosslessTextRegion) | Some(
                SegmentType::ImmediateGenericRefinementRegion,
            ) | Some(SegmentType::ImmediateLosslessGenericRefinementRegion) => {
                let r = self.dispatch_region(seg_idx);
                proof {
                    let f = old(self).frame();
                    crate::stream::lemma_region_no_eof(f.heads, f.datas, f.dicts, seg_idx as int, f.doc);
                }
                r
            },
            Some(SegmentType::IntermediateGenericRegion) => {
                proof {
                    let f = old(self).frame();
                    lemma_handle_control(f.heads, f.datas, f.dicts, seg_idx as int, f.doc);
                }
                Err(Jbig2Error::UnsupportedFeature("intermediate generic region (type 36)".to_owned()))
            },
            Some(SegmentType::ColorPalette) => {
                proof {
                    let f = old(self).frame();
                    lemma_handle_control(f.heads, f.datas, f.dicts, seg_idx as int, f.doc);
                }
                Err(Jbig2Error::UnsupportedFeature("color palette (type 54)".to_owned()))
            },
            Some(SegmentType::CodeTable) => {
                let r = self.code_table_segment(seg_idx);
                proof {
                    let f = old(self).frame();
                    assert(self.frame() == (Frame { state: f.state, dicts: f.dicts, doc: f.doc, ..f }));
                }
                r
            },
            _ => {
                proof {
                    let f = old(self).frame();
                    lemma_handle_control(f.heads, f.datas, f.dicts, seg_idx as int, f.doc);
                }
                Ok(())
            },
        }
    }
}

/// Check the data of a code table segment (7.4.12): `Ok` exactly for a valid table.
/// No Huffman-coded region is decoded, so the table is not kept.
fn check_code_table(data: &[u8]) -> (r: Result<(), Jbig2Error>)
    ensures
        r is Ok <==> crate::stream::table_ok(data@),
        r is Err ==> r matches Err(Jbig2Error::InvalidData(_)),
{
    if data.len() > usize::MAX / 8 {
        return Err(Jbig2Error::InvalidData("code table segment too long".to_owned()));
    }
    match crate::huffman::parse_user_table(data) {
        Ok(_) => Ok(()),
        Err(e) => Err(e),
    }
}

/// The file header at the start of `d` is still incomplete.
pub open spec fn file_header_incomplete(d: Seq<u8>) -> bool {
    ||| d.len() < 9
    ||| (has_magic(d) && d[8] & 0x0C == 0 && d[8] & 2 == 0 && d.len() < 13)
}

/// The segment header at the start of `d` is still incomplete.
pub open spec fn segment_header_incomplete(d: Seq<u8>) -> bool {
    ||| d.len() < 11
    ||| (be_u32(d, 0) != 0xFFFFFFFF && d.len() < header_size(d))
}

/// Decoding stopped in state `st` at the end of the file, or for want of bytes: the
/// file header or a segment header is incomplete, or the data of segment
/// `segs[idx]` (whose length is known) is not all there.
pub open spec fn waiting(st: DecoderState, d: Seq<u8>, segs: Seq<StoredSegment>, idx: int) -> bool {
    ||| st == DecoderState::Eof
    ||| st == DecoderState::FileHeader && file_header_incomplete(d)
    ||| (st == DecoderState::SequentialHeader || st == DecoderState::RandomHeaders) && segment_header_incomplete(d)
    ||| (st == DecoderState::SequentialBody || st == DecoderState::RandomBodies) && 0 <= idx < segs.len()
        && segs[idx].header.data_length != 0xFFFFFFFF && d.len() < segs[idx].header.data_length
}

/// Weight of a state in the measure of `process`.
pub open spec fn state_weight(st: DecoderState) -> int {
    if st == DecoderState::SequentialHeader || st == DecoderState::RandomHeaders {
        1
    } else {
        0
    }
}

impl Decoder {
    /// The decoder's measure of work left: it drops with every step of `process`.
    spec fn work(&self) -> int {
        4 * self.buf@.len() + 2 * (self.segments@.len() - self.segment_index) + state_weight(self.state)
    }

    /// Take one step of the state machine: read the file header, a segment header, or
    /// the data of the next segment and handle it. `Ok(true)` when the step was taken,
    /// `Ok(false)` when decoding must wait for more bytes or has reached the end.
    #[verifier::rlimit(100)]
    #[verifier::spinoff_prover]
    fn step(&mut self) -> (r: Result<bool, Jbig2Error>)
        requires
            old(self).wf(),
        ensures
            final(self).wf(),
            final(self).buf@.len() <= old(self).buf@.len(),
            final(self).buf@ == old(self).buf@.subrange(
                old(self).buf@.len() - final(self).buf@.len(),
                old(self).buf@.len() as int,
            ),
            final(self).segments@.len() >= old(self).segments@.len(),
            forall|i: int|
                0 <= i < old(self).segments@.len() ==> (#[trigger] final(self).segments@[i]).header
                    == old(self).segments@[i].header,
            final(self).global_segments@ == old(self).global_segments@,
            r matches Ok(true) ==> frame_step(old(self).frame()) == Some(final(self).frame()) && final(self).work()
                < old(self).work(),
            r matches Ok(false) ==> waiting(final(self).state, final(self).buf@, final(self).segments@, final(self).segment_index as int)
                && final(self).frame() == frame_final(old(self).frame()),
            old(self).state == DecoderState::FileHeader && old(self).buf@.len() >= 9 && !has_magic(old(self).buf@)
                ==> (r matches Err(Jbig2Error::InvalidData(_))) && final(self).state == DecoderState::FileHeader,
            r is Err <==> frame_error(old(self).frame()),
            r matches Ok(false) ==> !run_fails(old(self).frame()),
    {
        let ghost b0 = self.buf@;
        let ghost f0 = self.frame();
        match self.state {
            DecoderState::FileHeader => {
                proof {
                    if self.buf@.len() >= 9 {
                        let f = self.buf@[8];
                        assert((f & 0x0C == 0) == (f & 0x04 == 0 && f & 0x08 == 0)) by (bit_vector);
                    }
                }
                match FileHeader::parse(self.buf.as_slice()) {
                    Err(e) => Err(e),
                    Ok(None) => {
                        proof {
                            lemma_final_step(f0);
                            crate::stream::lemma_run_fails_step(f0);
                        }
                        Ok(false)
                    },
                    Ok(Some((header, consumed))) => {
                        let next_state = match header.organization {
                            Organization::Sequential => DecoderState::SequentialHeader,
                            Organization::RandomAccess => DecoderState::RandomHeaders,
                        };
                        self.file_header = Some(header);
                        let _ = take_front(&mut self.buf, consumed);
                        self.state = next_state;
                        assert(frame_step(f0) == Some(self.frame()));
                        Ok(true)
                    },
                }
            },
            DecoderState::SequentialHeader | DecoderState::RandomHeaders => {
                match SegmentHeader::parse(self.buf.as_slice()) {
                    Err(e) => Err(e),
                    Ok(None) => {
                        proof {
                            lemma_final_step(f0);
                            crate::stream::lemma_run_fails_step(f0);
                        }
                        Ok(false)
                    },
                    Ok(Some((header, consumed))) => {
                        proof {
                            lemma_header_view(b0, header);
                        }
                        let _ = take_front(&mut self.buf, consumed);
                        let is_eof = header.seg_type == Some(SegmentType::EndOfFile);
                        let ghost hv = header_view(header);
                        self.segments.push(StoredSegment { header, data: Vec::new(), symbol_dict: None });
                        if self.state == DecoderState::RandomHeaders {
                            if is_eof {
                                self.state = DecoderState::RandomBodies;
                            }
                        } else {
                            self.state = DecoderState::SequentialBody;
                        }
                        proof {
                            assert(self.frame().heads =~= f0.heads.push(hv));
                            assert(self.frame().datas =~= f0.datas.push(Seq::empty()));
                            assert(self.frame().dicts =~= f0.dicts.push(None));
                        }
                        assert(frame_step(f0) == Some(self.frame()));
                        Ok(true)
                    },
                }
            },
            DecoderState::SequentialBody | DecoderState::RandomBodies => {
                if self.segment_index >= self.segments.len() {
                    self.state = DecoderState::Eof;
                    proof {
                        assert(frame_step(f0) == Some(self.frame()));
                        lemma_final_step(f0);
                        lemma_final_step(self.frame());
                        crate::stream::lemma_run_fails_step(f0);
                        crate::stream::lemma_run_fails_step(self.frame());
                    }
                    return Ok(false);
                }
                let data_length = self.segments[self.segment_index].header.data_length;
                let need = if data_length == 0xFFFFFFFF {
                    self.buf.len()
                } else {
                    data_length as usize
                };
                proof {
                    assert(f0.heads[self.segment_index as int] == seg_head(self.segments@[self.segment_index as int]));
                }
                if self.buf.len() < need {
                    proof {
                        lemma_final_step(f0);
                        crate::stream::lemma_run_fails_step(f0);
                    }
                    return Ok(false);
                }
                let seg_data = take_front(&mut self.buf, need);
                let idx = self.segment_index;
                let ghost data_v = seg_data@;
                let mut seg = self.segments.remove(idx);
                seg.data = seg_data;
                self.segments.insert(idx, seg);
                let ghost segs1 = self.segments@;
                proof {
                    assert(heads_of(segs1) =~= f0.heads);
                    assert(datas_of(segs1) =~= f0.datas.update(idx as int, data_v));
                    assert(dicts_of(segs1) =~= f0.dicts);
                }
                let ghost f1 = self.frame();
                assert(f1 == Frame { buf: b0.subrange(need as int, b0.len() as int), datas: f0.datas.update(idx as int, data_v), ..f0 });
                match self.dispatch_segment(idx) {
                    Err(e) => {
                        return Err(e);
                    },
                    Ok(()) => {},
                }
                self.segment_index += 1;
                if self.state != DecoderState::Eof {
                    if self.state == DecoderState::RandomBodies {
                        if self.segment_index >= self.segments.len() {
                            self.state = DecoderState::Eof;
                        }
                    } else {
                        self.state = DecoderState::SequentialHeader;
                    }
                }
                assert(frame_step(f0) == Some(self.frame()));
                Ok(true)
            },
            DecoderState::Eof => {
                proof {
                    lemma_final_step(f0);
                    crate::stream::lemma_run_fails_step(f0);
                }
                Ok(false)
            },
        }
    }

    /// Run the state machine over the bytes received: read the file header, segment
    /// headers and segment data as far as they are complete, handling each segment.
    fn process(&mut self) -> (r: Result<(), Jbig2Error>)
        requires
            old(self).wf(),
        ensures
            final(self).wf(),
            final(self).buf@.len() <= old(self).buf@.len(),
            final(self).buf@ == old(self).buf@.subrange(
                old(self).buf@.len() - final(self).buf@.len(),
                old(self).buf@.len() as int,
            ),
            final(self).segments@.len() >= old(self).segments@.len(),
            forall|i: int|
                0 <= i < old(self).segments@.len() ==> (#[trigger] final(self).segments@[i]).header
                    == old(self).segments@[i].header,
            final(self).global_segments@ == old(self).global_segments@,
            r is Ok ==> waiting(final(self).state, final(self).buf@, final(self).segments@, final(self).segment_index as int),
            r is Ok ==> final(self).frame() == frame_final(old(self).frame()),
            old(self).state == DecoderState::FileHeader && old(self).buf@.len() >= 9 && !has_magic(old(self).buf@)
                ==> (r matches Err(Jbig2Error::InvalidData(_))) && final(self).state == DecoderState::FileHeader,
            r is Err <==> run_fails(old(self).frame()),
    {
        let mut res: Result<(), Jbig2Error> = Ok(());
        let mut first = true;
        loop
            invariant_except_break
                res is Ok,
                frame_final(self.frame()) == frame_final(old(self).frame()),
                run_fails(self.frame()) == run_fails(old(self).frame()),
                first ==> *self == *old(self),
                !first ==> !(old(self).state == DecoderState::FileHeader && old(self).buf@.len() >= 9 && !has_magic(
                    old(self).buf@,
                )),
            invariant
                self.wf(),
                self.buf@.len() <= old(self).buf@.len(),
                self.buf@ == old(self).buf@.subrange(old(self).buf@.len() - self.buf@.len(), old(self).buf@.len() as int),
                self.segments@.len() >= old(self).segments@.len(),
                forall|i: int|
                    0 <= i < old(self).segments@.len() ==> (#[trigger] self.segments@[i]).header
                        == old(self).segments@[i].header,
                self.global_segments@ == old(self).global_segments@,
            ensures
                res is Ok ==> waiting(self.state, self.buf@, self.segments@, self.segment_index as int),
                res is Ok ==> self.frame() == frame_final(old(self).frame()),
                old(self).state == DecoderState::FileHeader && old(self).buf@.len() >= 9 && !has_magic(old(self).buf@)
                    ==> (res matches Err(Jbig2Error::InvalidData(_))) && self.state == DecoderState::FileHeader,
                res is Err <==> run_fails(old(self).frame()),
            decreases self.work(),
        {
            let ghost f0 = self.frame();
            let st = self.step();
            proof {
                crate::stream::lemma_run_fails_step(f0);
            }
            match st {
                Err(e) => {
                    res = Err(e);
                    break;
                },
                Ok(false) => {
                    break;
                },
                Ok(true) => {
                    proof {
                        lemma_final_step(f0);
                    }
                    first = false;
                },
            }
        }
        res
    }
}

impl Decoder {
    /// Hand more bytes of the stream to the decoder and decode as far as they go.
    pub fn write(&mut self, data: &[u8]) -> (r: Result<(), Jbig2Error>)
        requires
            old(self).wf(),
        ensures
            final(self).wf(),
            final(self).pending().len() <= old(self).pending().len() + data@.len(),
            final(self).pending() == (old(self).pending() + data@).subrange(
                old(self).pending().len() + data@.len() - final(self).pending().len(),
                (old(self).pending().len() + data@.len()) as int,
            ),
            final(self).segments_view().len() >= old(self).segments_view().len(),
            forall|i: int|
                0 <= i < old(self).segments_view().len() ==> (#[trigger] final(self).segments_view()[i]).header
                    == old(self).segments_view()[i].header,
            final(self).globals_view() == old(self).globals_view(),
            r is Ok ==> waiting(final(self).dstate(), final(self).pending(), final(self).segments_view(), final(self).handled()),
            r is Ok ==> final(self).frame() == frame_final(appended(old(self).frame(), data@)),
            r is Err <==> run_fails(appended(old(self).frame(), data@)),
            old(self).dstate() == DecoderState::FileHeader && old(self).pending().len() + data@.len() >= 9 && !has_magic(
                old(self).pending() + data@,
            ) ==> (r matches Err(Jbig2Error::InvalidData(_))) && final(self).dstate() == DecoderState::FileHeader,
    {
        self.buf.extend_from_slice(data);
        proof {
            assert(self.buf@ =~= old(self).buf@ + data@);
            assert(self.frame() == appended(old(self).frame(), data@));
        }
        self.process()
    }

    /// Read the global segments (for instance a PDF JBIG2Globals stream) as an embedded
    /// stream and use them; nothing changes when they cannot be read.
    pub fn set_globals(&mut self, globals_data: &[u8]) -> (r: Result<(), Jbig2Error>)
        requires
            old(self).wf(),
        ensures
            r is Err <==> run_fails(appended(embedded_start(), globals_data@)),
            r is Ok ==> {
                let f = frame_final(appended(embedded_start(), globals_data@));
                &&& heads_of(final(self).globals_view()) == f.heads
                &&& datas_of(final(self).globals_view()) == f.datas
                &&& dicts_of(final(self).globals_view()) == f.dicts
            },
            final(self).wf(),
            final(self).dstate() == old(self).dstate(),
            final(self).pending() == old(self).pending(),
            final(self).segments_view() == old(self).segments_view(),
            final(self).pages_view() == old(self).pages_view(),
            final(self).handled() == old(self).handled(),
            final(self).current() == old(self).current(),
            r is Err ==> final(self).globals_view() == old(self).globals_view(),
    {
        match Self::parse_globals(globals_data) {
            Err(e) => Err(e),
            Ok(segments) => {
                self.set_global_segments(segments);
                Ok(())
            },
        }
    }

    /// Read global segments as an embedded stream and return them, for use with
    /// `set_global_segments`.
    pub fn parse_globals(globals_data: &[u8]) -> (r: Result<Vec<StoredSegment>, Jbig2Error>)
        ensures
            r matches Ok(v) ==> segments_ok(v@),
            r is Err <==> run_fails(appended(embedded_start(), globals_data@)),
            r matches Ok(v) ==> {
                let f = frame_final(appended(embedded_start(), globals_data@));
                &&& heads_of(v@) == f.heads
                &&& datas_of(v@) == f.datas
                &&& dicts_of(v@) == f.dicts
            },
    {
        let mut tmp = Decoder::new_embedded();
        match tmp.write(globals_data) {
            Err(e) => Err(e),
            Ok(()) => Ok(tmp.segments),
        }
    }
}

} // verus!
