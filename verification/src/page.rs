//! Pages: the page information segment (ITU T.88 7.4.8) and the page buffer.

use vstd::prelude::*;
use crate::bytes::{be_u16, be_u32, read_u16_be, read_u32_be};
use crate::error::Jbig2Error;
use crate::image::{ComposeOp, Jbig2Image, composed_pixel_in, resized_data, stride_of};

verus! {

/// Where a page is in its life.
#[derive(Debug, Clone, Copy, PartialEq, Eq, Structural)]
pub enum PageState {
    Free,
    New,
    Complete,
    Returned,
    Released,
}

/// A page being decoded.
#[derive(Debug, Clone)]
pub struct Page {
    pub state: PageState,
    pub number: u32,
    pub width: u32,
    /// Page height; 0xFFFFFFFF while unknown (striped pages).
    pub height: u32,
    pub x_resolution: u32,
    pub y_resolution: u32,
    pub flags: u8,
    pub striped: bool,
    pub stripe_size: u16,
    pub end_row: u32,
    pub image: Option<Jbig2Image>,
}

/// An image of `w` x `h` pixels fits the 32-bit size limits of `Jbig2Image::new`.
pub open spec fn image_size_ok(w: u32, h: u32) -> bool {
    w as int + 7 <= u32::MAX && stride_of(w as int) * h as int <= u32::MAX
}

/// `new` and `r` are the page and result after reading page information `data` for
/// page `page_number` into page `old` (7.4.8).
pub open spec fn page_info_read(old: Page, page_number: u32, data: Seq<u8>, new: Page, r: Result<(), Jbig2Error>) -> bool {
    &&& new.wf()
    &&& data.len() < 19 ==> (r matches Err(Jbig2Error::InvalidData(_)) && new == old)
    &&& data.len() >= 19 ==> {
        let d = data;
        let flags = d[16];
        let raw = be_u16(d, 17);
        let height = be_u32(d, 4);
        let striped = raw & 0x8000 != 0 || height == 0xFFFFFFFF;
        let stripe_size = if raw & 0x8000 != 0 {
            raw & 0x7FFF
        } else if height == 0xFFFFFFFF {
            0x7FFFu16
        } else {
            0u16
        };
        let img_height = if height == 0xFFFFFFFF { stripe_size as u32 } else { height };
        &&& new.state == PageState::New
        &&& new.number == page_number
        &&& new.width == be_u32(d, 0)
        &&& new.height == height
        &&& new.x_resolution == be_u32(d, 8)
        &&& new.y_resolution == be_u32(d, 12)
        &&& new.flags == flags
        &&& new.end_row == old.end_row || flags & 0x80 == 0
        &&& (flags & 0x80 != 0 ==> (r matches Err(Jbig2Error::UnsupportedFeature(_)) && new.image == old.image))
        &&& (flags & 0x80 == 0 && !image_size_ok(be_u32(d, 0), img_height) ==> r matches Err(
            Jbig2Error::InvalidData(_),
        ))
        &&& (flags & 0x80 == 0 && image_size_ok(be_u32(d, 0), img_height) ==> {
            &&& r is Ok
            &&& new.striped == striped
            &&& new.stripe_size == stripe_size
            &&& new.end_row == 0
            &&& new.image matches Some(img) && img.width == be_u32(d, 0) && img.height == img_height
                && forall|i: int|
                0 <= i < img.data@.len() ==> img.data@[i] == if flags & 4 != 0 {
                    0xFFu8
                } else {
                    0u8
                }
        })
    }
}

/// Whether an image of `w` x `h` pixels fits the 32-bit size limits.
pub fn image_fits(w: u32, h: u32) -> (b: bool)
    ensures
        b == image_size_ok(w, h),
{
    if w > u32::MAX - 7 {
        return false;
    }
    let sw = ((w + 7) / 8) as u64;
    assert(sw * h as u64 <= 0x2000_0000 * 0x1_0000_0000) by (nonlinear_arith)
        requires
            sw <= 0x2000_0000,
            h <= 0xFFFF_FFFF,
    ;
    sw * (h as u64) <= u32::MAX as u64
}

/// A free page without an image, of unknown height.
pub open spec fn blank_page() -> Page {
    Page {
        state: PageState::Free,
        number: 0,
        width: 0,
        height: 0xFFFFFFFF,
        x_resolution: 0,
        y_resolution: 0,
        flags: 0,
        striped: false,
        stripe_size: 0,
        end_row: 0,
        image: None,
    }
}

impl Page {
    /// The page buffer, if there is one, is well formed.
    pub open spec fn wf(&self) -> bool {
        self.image matches Some(img) ==> img.wf()
    }

    /// A free page without an image.
    pub fn new() -> (p: Self)
        ensures
            p == blank_page(),
            p.state == PageState::Free,
            p.number == 0,
            p.width == 0,
            p.height == 0xFFFFFFFF,
            p.x_resolution == 0,
            p.y_resolution == 0,
            p.flags == 0,
            !p.striped,
            p.stripe_size == 0,
            p.end_row == 0,
            p.image is None,
            p.wf(),
    {
        Page {
            state: PageState::Free,
            number: 0,
            width: 0,
            height: 0xFFFFFFFF,
            x_resolution: 0,
            y_resolution: 0,
            flags: 0,
            striped: false,
            stripe_size: 0,
            end_row: 0,
            image: None,
        }
    }

    /// Read a page information segment and set up the page buffer: white, or black when
    /// the default-pixel flag (bit 2) is set; as tall as one stripe while the page
    /// height is unknown.
    pub fn parse_info(&mut self, page_number: u32, data: &[u8]) -> (r: Result<(), Jbig2Error>)
        requires
            old(self).wf(),
        ensures
            page_info_read(*old(self), page_number, data@, *final(self), r),
    {
        if data.len() < 19 {
            return Err(Jbig2Error::InvalidData("page info segment too short".to_owned()));
        }
        self.state = PageState::New;
        self.number = page_number;
        self.width = read_u32_be(data, 0);
        self.height = read_u32_be(data, 4);
        self.x_resolution = read_u32_be(data, 8);
        self.y_resolution = read_u32_be(data, 12);
        self.flags = data[16];
        if self.flags & 0x80 != 0 {
            return Err(Jbig2Error::UnsupportedFeature("color segments".to_owned()));
        }
        let striping = read_u16_be(data, 17);
        if striping & 0x8000 != 0 {
            self.striped = true;
            self.stripe_size = striping & 0x7FFF;
        } else {
            self.striped = false;
            self.stripe_size = 0;
        }
        if self.height == 0xFFFFFFFF && !self.striped {
            self.striped = true;
            self.stripe_size = 0x7FFF;
        }
        self.end_row = 0;
        let img_height: u32 = if self.height == 0xFFFFFFFF { self.stripe_size as u32 } else { self.height };
        if self.width > u32::MAX - 7 || {
            let sw = ((self.width + 7) / 8) as u64;
            assert(sw * img_height as u64 <= 0x2000_0000 * 0x1_0000_0000) by (nonlinear_arith)
                requires
                    sw <= 0x2000_0000,
                    img_height <= 0xFFFF_FFFF,
            ;
            sw * img_height as u64 > u32::MAX as u64
        } {
            return Err(Jbig2Error::InvalidData("page dimensions too large".to_owned()));
        }
        let mut image = Jbig2Image::new(self.width, img_height);
        if self.flags & 4 != 0 {
            image.clear(1);
        }
        self.image = Some(image);
        Ok(())
    }

    /// Compose a region result `src` onto the page at (x, y) with `op`. A striped page
    /// of unknown height first grows to hold the region, filled with the default pixel.
    pub fn add_result(&mut self, src: &Jbig2Image, x: u32, y: u32, op: ComposeOp) -> (r: Result<(), Jbig2Error>)
        requires
            old(self).wf(),
            src.wf(),
        ensures
            final(self).wf(),
            final(self).state == old(self).state,
            final(self).number == old(self).number,
            final(self).width == old(self).width,
            final(self).height == old(self).height,
            final(self).x_resolution == old(self).x_resolution,
            final(self).y_resolution == old(self).y_resolution,
            final(self).flags == old(self).flags,
            final(self).striped == old(self).striped,
            final(self).stripe_size == old(self).stripe_size,
            final(self).end_row == old(self).end_row,
            old(self).image is None ==> (r matches Err(Jbig2Error::InvalidData(_))) && final(self).image is None,
            r is Err ==> r matches Err(Jbig2Error::InvalidData(_)),
            old(self).image matches Some(img) ==> {
                let grow = old(self).striped && old(self).height == 0xFFFFFFFF;
                let need = y as int + src.height as int;
                let fill_black = old(self).flags & 4 != 0;
                if grow && need > u32::MAX {
                    r is Err
                } else if grow && img.height < need && !image_size_ok(img.width, need as u32) {
                    r is Err
                } else {
                    let (h, s, data) = if grow && img.height < need {
                        (need, stride_of(img.width as int), resized_data(&img, img.width, need as u32, fill_black))
                    } else {
                        (img.height as int, img.stride as int, img.data@)
                    };
                    &&& r is Ok
                    &&& final(self).image matches Some(out) && out.width == img.width && out.height == h
                        && forall|px: int, py: int| #[trigger] out.spec_pixel(px, py) == composed_pixel_in(
                        img.width as int,
                        h,
                        s,
                        data,
                        src,
                        (x as i32) as int,
                        (y as i32) as int,
                        op,
                        px,
                        py,
                    )
                }
            },
    {
        let grow = self.striped && self.height == 0xFFFFFFFF;
        let fill_black = self.flags & 4 != 0;
        match &mut self.image {
            None => Err(Jbig2Error::InvalidData("page has no image".to_owned())),
            Some(image) => {
                let ghost img0 = *image;
                if grow {
                    if y as u64 + src.height as u64 > u32::MAX as u64 {
                        return Err(Jbig2Error::InvalidData("page height overflow".to_owned()));
                    }
                    let new_height = y + src.height;
                    if image.height < new_height {
                        if image.width > u32::MAX - 7 || {
                            let sw = ((image.width + 7) / 8) as u64;
                            assert(sw * new_height as u64 <= 0x2000_0000 * 0x1_0000_0000) by (nonlinear_arith)
                                requires
                                    sw <= 0x2000_0000,
                                    new_height <= 0xFFFF_FFFF,
                            ;
                            sw * new_height as u64 > u32::MAX as u64
                        } {
                            return Err(Jbig2Error::InvalidData("page height overflow".to_owned()));
                        }
                        let w = image.width;
                        image.resize(w, new_height, fill_black);
                    }
                }
                image.compose(src, x as i32, y as i32, op)
            },
        }
    }

    /// Mark the page complete.
    pub fn complete(&mut self)
        ensures
            *final(self) == (Page { state: PageState::Complete, ..*old(self) }),
    {
        self.state = PageState::Complete;
    }

    /// Record the end row of the last stripe.
    pub fn set_end_row(&mut self, end_row: u32)
        ensures
            *final(self) == (Page { end_row, ..*old(self) }),
    {
        self.end_row = end_row;
    }
}

} // verus!
