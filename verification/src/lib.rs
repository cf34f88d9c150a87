//! justbig2 — a JBIG2 (ITU T.88) bi-level image decoder, verified with Verus.
//!
//! `decode` reads a whole JBIG2 file, `decode_embedded` a headerless stream as PDF
//! embeds it; `Decoder` takes the stream in pieces.

pub mod error;
pub mod image;
pub mod bitreader;
pub mod bytes;
pub mod arith;
pub mod arith_int;
pub mod arith_iaid;
pub mod huffman;
pub mod header;
pub mod segment;
pub mod page;
pub mod decoder;
pub mod stream;
pub mod generic;
pub mod mmr_tables;
pub mod mmr;
pub mod mmr_region;
pub mod refinement;
pub mod symbol_dict;
pub mod text;
pub mod halftone;

pub use error::{Jbig2Error, Result};
pub use decoder::Decoder;

use vstd::prelude::*;
use crate::decoder::{count_complete, first_complete};
use crate::header::has_magic;
use crate::stream::{ImgP, appended, embedded_start, file_start, frame_final, handed_out, run_fails};
use crate::image::{pixel_in, stride_of};

verus! {

/// A decoded page: `width` x `height` pixels, rows of `stride` bytes, one bit per pixel,
/// most significant bit first, 1 for black.
#[derive(Debug, Clone)]
pub struct Page {
    pub width: u32,
    pub height: u32,
    pub stride: u32,
    pub data: Vec<u8>,
}

impl Page {
    /// The rows hold the pixels and fit the data.
    pub open spec fn wf(&self) -> bool {
        &&& stride_of(self.width as int) <= self.stride
        &&& self.stride as int * self.height as int <= self.data@.len()
        &&& self.stride as int * self.height as int <= u32::MAX
    }

    /// Rows take exactly `ceil(width / 8)` bytes and the data holds exactly the rows.
    pub open spec fn layout_ok(&self) -> bool {
        &&& self.stride as int == stride_of(self.width as int)
        &&& self.data@.len() == self.stride as int * self.height as int
    }

    /// The pixel at (x, y): 0 or 1; 0 outside the page.
    pub fn get_pixel(&self, x: u32, y: u32) -> (v: u8)
        requires
            self.wf(),
        ensures
            v == pixel_in(self.width as int, self.height as int, self.stride as int, self.data@, x as int, y as int),
            v <= 1,
    {
        if x >= self.width || y >= self.height {
            return 0;
        }
        proof {
            crate::image::lemma_pixel_index(x as int, y as int, self.width as int, self.height as int, stride_of(self.width as int));
            assert(y as int * self.stride as int + self.stride as int <= self.stride as int * self.height as int) by (nonlinear_arith)
                requires
                    y < self.height,
                    0 <= self.stride,
            ;
        }
        let byte_idx = (y * self.stride + x / 8) as usize;
        let bit_idx = (7 - (x % 8)) as u8;
        let b = self.data[byte_idx];
        assert((b >> bit_idx) & 1 == (b >> ((7 - (x % 8) as int) as u8)) & 1u8);
        proof {
            crate::image::lemma_bit_of_range(b, x as int % 8);
        }
        (b >> bit_idx) & 1
    }
}

/// Page `p` shows the pixels of image `i`.
pub open spec fn page_shows(p: Page, i: ImgP) -> bool {
    &&& p.width == i.width
    &&& p.height == i.height
    &&& forall|x: int, y: int|
        #[trigger] pixel_in(p.width as int, p.height as int, p.stride as int, p.data@, x, y) == (i.pix)(x, y)
}

/// The pages `ps` show the images `imgs`, one by one.
pub open spec fn pages_show(ps: Seq<Page>, imgs: Seq<ImgP>) -> bool {
    &&& ps.len() == imgs.len()
    &&& forall|i: int| 0 <= i < ps.len() ==> page_shows(#[trigger] ps[i], imgs[i])
}

impl Decoder {
    /// The next complete page, as a `Page`; `None` when no page is ready.
    pub fn page(&mut self) -> (r: Option<Page>)
        requires
            old(self).wf(),
        ensures
            final(self).wf(),
            final(self).dstate() == old(self).dstate(),
            final(self).pending() == old(self).pending(),
            final(self).segments_view() == old(self).segments_view(),
            final(self).globals_view() == old(self).globals_view(),
            final(self).handled() == old(self).handled(),
            final(self).current() == old(self).current(),
            final(self).frame().doc.pages == crate::stream::take_page(old(self).frame().doc.pages),
            ({
                let k = first_complete(old(self).pages_view());
                if k == old(self).pages_view().len() {
                    r is None && final(self).pages_view() == old(self).pages_view()
                } else {
                    &&& final(self).pages_view() == old(self).pages_view().update(
                        k,
                        crate::page::Page { state: crate::page::PageState::Returned, ..old(self).pages_view()[k] },
                    )
                    &&& count_complete(final(self).pages_view()) + 1 == count_complete(old(self).pages_view())
                    &&& match old(self).pages_view()[k].image {
                        Some(img) => r matches Some(p) && p.width == img.width && p.height == img.height && p.stride
                            == img.stride && p.data@ == img.data@ && p.wf() && p.layout_ok() && forall|x: int, y: int|
                            #[trigger] pixel_in(p.width as int, p.height as int, p.stride as int, p.data@, x, y)
                            == img.spec_pixel(x, y),
                        None => r is None,
                    }
                }
            }),
            ({
                let hp = handed_out(old(self).frame().doc.pages);
                match r {
                    Some(p) => hp.len() > 0 && page_shows(p, hp[0]) && handed_out(final(self).frame().doc.pages)
                        == hp.drop_first(),
                    None => hp.len() == 0,
                }
            }),
    {
        match self.page_out() {
            Some(img) => {
                proof {
                    assert(stride_of(img.width as int) <= img.stride);
                }
                Some(Page { width: img.width, height: img.height, stride: img.stride, data: img.data })
            },
            None => None,
        }
    }
}

/// Hand out every page the decoder has ready, in order, until one is missing.
fn collect_pages(decoder: &mut Decoder) -> (pages: Vec<Page>)
    requires
        old(decoder).wf(),
    ensures
        final(decoder).wf(),
        forall|i: int| 0 <= i < pages@.len() ==> (#[trigger] pages@[i]).wf() && pages@[i].layout_ok(),
        pages_show(pages@, handed_out(old(decoder).frame().doc.pages)),
{
    let mut pages: Vec<Page> = Vec::new();
    let ghost hp0 = handed_out(decoder.frame().doc.pages);
    loop
        invariant_except_break
            pages@.len() <= hp0.len(),
            pages_show(pages@, hp0.take(pages@.len() as int)),
            handed_out(decoder.frame().doc.pages) == hp0.skip(pages@.len() as int),
        invariant
            decoder.wf(),
            forall|i: int| 0 <= i < pages@.len() ==> (#[trigger] pages@[i]).wf() && pages@[i].layout_ok(),
            hp0 == handed_out(old(decoder).frame().doc.pages),
        ensures
            pages_show(pages@, hp0),
        decreases count_complete(decoder.pages_view()),
    {
        let ghost before = pages@;
        match decoder.page() {
            Some(page) => {
                pages.push(page);
                proof {
                    let n = before.len() as int;
                    assert(hp0.skip(n)[0] == hp0[n]);
                    assert(hp0.skip(n).drop_first() =~= hp0.skip(n + 1));
                    assert(hp0.take(n + 1) =~= hp0.take(n).push(hp0[n]));
                }
            },
            None => {
                proof {
                    assert(hp0.take(pages@.len() as int) =~= hp0);
                }
                break;
            },
        }
    }
    pages
}

/// Decode a whole JBIG2 file and return its pages.
pub fn decode(data: &[u8]) -> (r: Result<Vec<Page>>)
    ensures
        data@.len() >= 9 && !has_magic(data@) ==> r matches Err(Jbig2Error::InvalidData(_)),
        r is Err <==> run_fails(appended(file_start(), data@)),
        r matches Ok(pages) ==> pages_show(pages@, handed_out(frame_final(appended(file_start(), data@)).doc.pages)),
        r matches Ok(pages) ==> forall|i: int| 0 <= i < pages@.len() ==> (#[trigger] pages@[i]).wf() && pages@[i].layout_ok(),
{
    let mut decoder = Decoder::new();
    proof {
        assert(decoder.pending() + data@ =~= data@);
    }
    match decoder.write(data) {
        Err(e) => Err(e),
        Ok(()) => Ok(collect_pages(&mut decoder)),
    }
}

/// Decode an embedded (headerless) JBIG2 stream and return its pages.
pub fn decode_embedded(data: &[u8]) -> (r: Result<Vec<Page>>)
    ensures
        r is Err <==> run_fails(appended(embedded_start(), data@)),
        r matches Ok(pages) ==> pages_show(pages@, handed_out(frame_final(appended(embedded_start(), data@)).doc.pages)),
        r matches Ok(pages) ==> forall|i: int| 0 <= i < pages@.len() ==> (#[trigger] pages@[i]).wf() && pages@[i].layout_ok(),
{
    let mut decoder = Decoder::new_embedded();
    match decoder.write(data) {
        Err(e) => Err(e),
        Ok(()) => Ok(collect_pages(&mut decoder)),
    }
}

} // verus!
