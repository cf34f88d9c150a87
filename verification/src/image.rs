//! Bi-level images: one bit per pixel, rows padded to whole bytes, MSB first.

use vstd::prelude::*;

verus! {

/// How a source bitmap is combined with the destination (T.88 7.4.1.5).
#[derive(Debug, Clone, Copy, PartialEq, Eq)]
pub enum ComposeOp {
    Or,
    And,
    Xor,
    Xnor,
    Replace,
}

/// A bitmap of `width` x `height` pixels stored row by row, `stride` bytes per row.
#[derive(Debug, Clone)]
pub struct Jbig2Image {
    pub width: u32,
    pub height: u32,
    pub stride: u32,
    pub data: Vec<u8>,
}

/// The value of an image: dimensions, stride and the bytes of its rows.
pub struct ImageView {
    pub width: u32,
    pub height: u32,
    pub stride: u32,
    pub data: Seq<u8>,
}

impl View for Jbig2Image {
    type V = ImageView;

    open spec fn view(&self) -> ImageView {
        ImageView { width: self.width, height: self.height, stride: self.stride, data: self.data@ }
    }
}

/// Bytes needed for one row of `width` pixels.
pub open spec fn stride_of(width: int) -> int {
    (width + 7) / 8
}

/// Index of the byte holding pixel (x, y) in rows of `stride` bytes.
pub open spec fn byte_pos(stride: int, x: int, y: int) -> int {
    y * stride + x / 8
}

/// Pixel (x, y) of a `w` x `h` bitmap stored in `data` with `stride` bytes per row;
/// 0 outside the bitmap.
pub open spec fn pixel_in(w: int, h: int, stride: int, data: Seq<u8>, x: int, y: int) -> u8 {
    if 0 <= x < w && 0 <= y < h {
        bit_of(data[byte_pos(stride, x, y)], x % 8)
    } else {
        0
    }
}

/// The bitmap data `data` (rows of `s` bytes) with pixel (x, y) set to `b`.
pub open spec fn set_pixel_data(s: int, data: Seq<u8>, x: int, y: int, b: u8) -> Seq<u8> {
    data.update(byte_pos(s, x, y), with_bit(data[byte_pos(s, x, y)], x % 8, b != 0))
}

/// Bit `k` (0 = most significant) of a byte, as 0 or 1.
pub open spec fn bit_of(b: u8, k: int) -> u8 {
    (b >> ((7 - k) as u8)) & 1u8
}

/// The byte `b` with bit `k` (0 = most significant) set to `v`.
pub open spec fn with_bit(b: u8, k: int, v: bool) -> u8 {
    if v {
        b | (1u8 << ((7 - k) as u8))
    } else {
        b & !(1u8 << ((7 - k) as u8))
    }
}

/// The result of combining destination bit `d` with source bit `s`.
pub open spec fn compose_bit(op: ComposeOp, d: u8, s: u8) -> u8 {
    match op {
        ComposeOp::Or => d | s,
        ComposeOp::And => d & s,
        ComposeOp::Xor => d ^ s,
        ComposeOp::Xnor => (d ^ s) ^ 1,
        ComposeOp::Replace => s,
    }
}

pub proof fn lemma_bit_of_range(b: u8, k: int)
    requires
        0 <= k < 8,
    ensures
        bit_of(b, k) == 0 || bit_of(b, k) == 1,
{
    let s = (7 - k) as u8;
    assert(s < 8);
    assert((b >> s) & 1u8 == 0 || (b >> s) & 1u8 == 1) by (bit_vector);
}

pub proof fn lemma_with_bit(b: u8, k: int, v: bool, j: int)
    requires
        0 <= k < 8,
        0 <= j < 8,
    ensures
        bit_of(with_bit(b, k, v), j) == if j == k {
            if v { 1u8 } else { 0u8 }
        } else {
            bit_of(b, j)
        },
{
    let s = (7 - k) as u8;
    let t = (7 - j) as u8;
    assert(s < 8 && t < 8);
    assert(((b | (1u8 << s)) >> t) & 1u8 == (if t == s { 1u8 } else { (b >> t) & 1u8 }) && ((b & !(1u8 << s)) >> t)
        & 1u8 == (if t == s { 0u8 } else { (b >> t) & 1u8 })) by (bit_vector)
        requires
            s < 8,
            t < 8,
    ;
}

/// A byte is determined by its eight bits.
pub proof fn lemma_byte_ext(a: u8, b: u8)
    requires
        forall|k: int| 0 <= k < 8 ==> bit_of(a, k) == bit_of(b, k),
    ensures
        a == b,
{
    assert(bit_of(a, 0) == bit_of(b, 0));
    assert(bit_of(a, 1) == bit_of(b, 1));
    assert(bit_of(a, 2) == bit_of(b, 2));
    assert(bit_of(a, 3) == bit_of(b, 3));
    assert(bit_of(a, 4) == bit_of(b, 4));
    assert(bit_of(a, 5) == bit_of(b, 5));
    assert(bit_of(a, 6) == bit_of(b, 6));
    assert(bit_of(a, 7) == bit_of(b, 7));
    assert(a == b) by (bit_vector)
        requires
            (a >> 7u8) & 1 == (b >> 7u8) & 1,
            (a >> 6u8) & 1 == (b >> 6u8) & 1,
            (a >> 5u8) & 1 == (b >> 5u8) & 1,
            (a >> 4u8) & 1 == (b >> 4u8) & 1,
            (a >> 3u8) & 1 == (b >> 3u8) & 1,
            (a >> 2u8) & 1 == (b >> 2u8) & 1,
            (a >> 1u8) & 1 == (b >> 1u8) & 1,
            (a >> 0u8) & 1 == (b >> 0u8) & 1,
    ;
}

pub proof fn lemma_fill_bits(k: int)
    requires
        0 <= k < 8,
    ensures
        bit_of(0xFFu8, k) == 1,
        bit_of(0u8, k) == 0,
{
    let s = (7 - k) as u8;
    assert(s < 8);
    assert((0xFFu8 >> s) & 1u8 == 1 && (0u8 >> s) & 1u8 == 0) by (bit_vector)
        requires
            s < 8,
    ;
}

/// Row `y`, byte `x / 8` lies inside the pixel data of a `stride` x `h` image.
pub proof fn lemma_pixel_index(x: int, y: int, w: int, h: int, s: int)
    requires
        0 <= x < w,
        0 <= y < h,
        s == stride_of(w),
    ensures
        0 <= x / 8 < s,
        0 <= y * s + x / 8 < s * h,
        y * s <= y * s + x / 8,
{
    assert(0 <= x / 8 < s);
    assert(y * s + s <= h * s) by (nonlinear_arith)
        requires
            y < h,
            0 <= s,
    ;
    assert(s * h == h * s) by (nonlinear_arith);
    assert(0 <= y * s) by (nonlinear_arith)
        requires
            0 <= y,
            0 <= s,
    ;
}

/// Two (row, byte) pairs of the same stride that address the same byte are equal.
pub proof fn lemma_index_unique(y1: int, a1: int, y2: int, a2: int, s: int)
    requires
        0 <= a1 < s,
        0 <= a2 < s,
        0 <= y1,
        0 <= y2,
        y1 * s + a1 == y2 * s + a2,
    ensures
        y1 == y2,
        a1 == a2,
{
    if y1 < y2 {
        assert(y1 * s + s <= y2 * s) by (nonlinear_arith)
            requires
                y1 < y2,
                0 <= s,
        ;
    } else if y2 < y1 {
        assert(y2 * s + s <= y1 * s) by (nonlinear_arith)
            requires
                y2 < y1,
                0 <= s,
        ;
    }
}

/// Every byte index of the pixel data splits into a row and a byte within the row.
pub proof fn lemma_index_split(i: int, s: int, h: int)
    requires
        0 <= i < s * h,
        0 < s,
    ensures
        0 <= i / s < h,
        0 <= i % s < s,
        i == (i / s) * s + i % s,
{
    assert(i == (i / s) * s + i % s) by (nonlinear_arith)
        requires
            0 < s,
    ;
    assert(i / s < h) by (nonlinear_arith)
        requires
            0 <= i < s * h,
            0 < s,
    ;
    assert(0 <= i / s) by (nonlinear_arith)
        requires
            0 <= i,
            0 < s,
    ;
}

impl Jbig2Image {
    /// The stride matches the width and the data holds exactly `stride * height` bytes,
    /// a count that fits in 32 bits.
    pub open spec fn wf(&self) -> bool {
        &&& self.stride as int == stride_of(self.width as int)
        &&& self.data@.len() == self.stride as int * self.height as int
        &&& self.stride as int * self.height as int <= u32::MAX
        &&& self.width as int + 7 <= u32::MAX
    }

    /// The pixel at (x, y): 0 (white) or 1 (black); 0 outside the image.
    pub open spec fn spec_pixel(&self, x: int, y: int) -> u8 {
        pixel_in(self.width as int, self.height as int, self.stride as int, self.data@, x, y)
    }

    /// The bits of the row padding (past the last pixel of each row) of `self` and `other` agree.
    pub open spec fn same_padding(&self, other: &Jbig2Image) -> bool {
        forall|x: int, y: int|
            #![trigger byte_pos(self.stride as int, x, y)]
            self.width <= x < 8 * self.stride && 0 <= y < self.height ==> bit_of(
                self.data@[byte_pos(self.stride as int, x, y)],
                x % 8,
            ) == bit_of(other.data@[byte_pos(other.stride as int, x, y)], x % 8)
    }

    /// Create an all-white image of the given size.
    pub fn new(width: u32, height: u32) -> (img: Self)
        requires
            width as int + 7 <= u32::MAX,
            stride_of(width as int) * height as int <= u32::MAX,
        ensures
            img.wf(),
            img.width == width,
            img.height == height,
            img.stride as int == stride_of(width as int),
            forall|i: int| 0 <= i < img.data@.len() ==> img.data@[i] == 0,
            forall|x: int, y: int| #[trigger] img.spec_pixel(x, y) == 0,
    {
        let stride = (width + 7) / 8;
        let len = (stride * height) as usize;
        let img = Jbig2Image { width, height, stride, data: vec![0u8; len] };
        assert forall|x: int, y: int| #[trigger] img.spec_pixel(x, y) == 0 by {
            if 0 <= x < width && 0 <= y < height {
                lemma_pixel_index(x, y, width as int, height as int, stride as int);
                lemma_fill_bits(x % 8);
            }
        }
        img
    }

    /// Read pixel (x, y); 0 when outside the image.
    pub fn get_pixel(&self, x: u32, y: u32) -> (v: u8)
        requires
            self.wf(),
        ensures
            v == self.spec_pixel(x as int, y as int),
            v <= 1,
    {
        if x >= self.width || y >= self.height {
            return 0;
        }
        proof {
            lemma_pixel_index(x as int, y as int, self.width as int, self.height as int, self.stride as int);
            lemma_bit_of_range(self.data@[byte_pos(self.stride as int, x as int, y as int)], x as int % 8);
        }
        let byte_idx = (y * self.stride + x / 8) as usize;
        let bit_idx = (7 - (x % 8)) as u8;
        (self.data[byte_idx] >> bit_idx) & 1
    }

    /// Write pixel (x, y) (black when `v` is nonzero); no effect outside the image.
    pub fn set_pixel(&mut self, x: u32, y: u32, v: u8)
        requires
            old(self).wf(),
        ensures
            final(self).wf(),
            final(self).width == old(self).width,
            final(self).height == old(self).height,
            final(self).stride == old(self).stride,
            final(self).same_padding(&*old(self)),
            x < old(self).width && y < old(self).height ==> final(self).data@ == set_pixel_data(
                old(self).stride as int,
                old(self).data@,
                x as int,
                y as int,
                v,
            ),
            !(x < old(self).width && y < old(self).height) ==> final(self).data@ == old(self).data@,
            forall|px: int, py: int|
                #[trigger] final(self).spec_pixel(px, py) == if px == x && py == y && x
                    < old(self).width && y < old(self).height {
                    if v != 0 {
                        1u8
                    } else {
                        0u8
                    }
                } else {
                    old(self).spec_pixel(px, py)
                },
    {
        if x >= self.width || y >= self.height {
            return;
        }
        proof {
            lemma_pixel_index(x as int, y as int, self.width as int, self.height as int, self.stride as int);
        }
        let ghost old_img = *self;
        let byte_idx = (y * self.stride + x / 8) as usize;
        let bit_idx = (7 - (x % 8)) as u8;
        let b = self.data[byte_idx];
        if v != 0 {
            self.data.set(byte_idx, b | (1u8 << bit_idx));
        } else {
            self.data.set(byte_idx, b & !(1u8 << bit_idx));
        }
        proof {
            let w = old_img.width as int;
            let h = old_img.height as int;
            let s = old_img.stride as int;
            assert(self.data@[byte_idx as int] == with_bit(b, x as int % 8, v != 0));
            assert forall|px: int, py: int|
                #[trigger] self.spec_pixel(px, py) == if px == x && py == y {
                    if v != 0 {
                        1u8
                    } else {
                        0u8
                    }
                } else {
                    old_img.spec_pixel(px, py)
                } by {
                if 0 <= px < w && 0 <= py < h {
                    lemma_pixel_index(px, py, w, h, s);
                    if byte_pos(self.stride as int, px, py) == byte_idx {
                        lemma_index_unique(py, px / 8, y as int, x as int / 8, s);
                        lemma_with_bit(b, x as int % 8, v != 0, px % 8);
                    }
                }
            }
            assert forall|px: int, py: int|
                #![trigger byte_pos(self.stride as int, px, py)]
                w <= px < 8 * s && 0 <= py < h implies bit_of(
                    self.data@[byte_pos(self.stride as int, px, py)],
                    px % 8,
                ) == bit_of(old_img.data@[byte_pos(old_img.stride as int, px, py)], px % 8) by {
                assert(0 <= px / 8 < s);
                assert(py * s + s <= h * s) by (nonlinear_arith)
                    requires
                        py < h,
                        0 <= s,
                ;
                assert(s * h == h * s) by (nonlinear_arith);
                assert(0 <= py * s) by (nonlinear_arith)
                    requires
                        0 <= py,
                        0 <= s,
                ;
                if byte_pos(self.stride as int, px, py) == byte_idx {
                    assert(0 <= x / 8 < s);
                    lemma_index_unique(py, px / 8, y as int, x as int / 8, s);
                    assert(px % 8 != x % 8);
                    lemma_with_bit(b, x as int % 8, v != 0, px % 8);
                }
            }
        }
    }

    /// Set every byte of the image (pixels and padding) to black (`v != 0`) or white.
    pub fn clear(&mut self, v: u8)
        requires
            old(self).wf(),
        ensures
            final(self).wf(),
            final(self).width == old(self).width,
            final(self).height == old(self).height,
            final(self).stride == old(self).stride,
            final(self).data@.len() == old(self).data@.len(),
            forall|i: int|
                0 <= i < final(self).data@.len() ==> final(self).data@[i] == if v != 0 {
                    0xFFu8
                } else {
                    0u8
                },
            forall|x: int, y: int|
                0 <= x < final(self).width && 0 <= y < final(self).height
                    ==> #[trigger] final(self).spec_pixel(x, y) == if v != 0 {
                    1u8
                } else {
                    0u8
                },
    {
        let fill: u8 = if v != 0 { 0xFF } else { 0x00 };
        let n = self.data.len();
        let mut i: usize = 0;
        while i < n
            invariant
                n == self.data@.len(),
                i <= n,
                self.width == old(self).width,
                self.height == old(self).height,
                self.stride == old(self).stride,
                self.data@.len() == old(self).data@.len(),
                forall|j: int| 0 <= j < i ==> self.data@[j] == fill,
            decreases n - i,
        {
            self.data.set(i, fill);
            i += 1;
        }
        proof {
            assert forall|x: int, y: int|
                0 <= x < self.width && 0 <= y < self.height implies #[trigger] self.spec_pixel(x, y)
                == if v != 0 {
                1u8
            } else {
                0u8
            } by {
                lemma_pixel_index(x, y, self.width as int, self.height as int, self.stride as int);
                lemma_fill_bits(x % 8);
            }
        }
    }

    /// An exact copy of the image.
    pub fn duplicate(&self) -> (r: Self)
        ensures
            r@ == self@,
            r.width == self.width,
            r.height == self.height,
            r.stride == self.stride,
            r.data@ == self.data@,
    {
        let data = self.data.clone();
        assert(data@ =~= self.data@);
        Jbig2Image { width: self.width, height: self.height, stride: self.stride, data }
    }

    /// Resize to `new_width` x `new_height`, keeping the bytes of the rows and columns
    /// both sizes share and filling the rest with black (`fill_black`) or white bytes.
    pub fn resize(&mut self, new_width: u32, new_height: u32, fill_black: bool)
        requires
            old(self).wf(),
            new_width as int + 7 <= u32::MAX,
            stride_of(new_width as int) * new_height as int <= u32::MAX,
        ensures
            final(self).wf(),
            final(self).width == new_width,
            final(self).height == new_height,
            final(self).data@ == resized_data(&*old(self), new_width, new_height, fill_black),
    {
        let new_stride = (new_width + 7) / 8;
        let new_len = (new_stride * new_height) as usize;
        let fill: u8 = if fill_black { 0xFF } else { 0x00 };
        let ghost old_img = *self;
        proof {
            assert(new_stride as int * new_height as int == new_len as int);
        }
        if new_stride == self.stride {
            self.data.resize(new_len, fill);
            proof {
                let s = new_stride as int;
                let target = resized_data(&old_img, new_width, new_height, fill_black);
                assert forall|i: int| 0 <= i < new_len implies self.data@[i] == target[i] by {
                    lemma_index_split(i, s, new_height as int);
                    let r = i / s;
                    if r < old_img.height {
                        lemma_pixel_index(0, r, 8 * s, old_img.height as int, s);
                        assert(r * s + s <= old_img.height as int * s) by (nonlinear_arith)
                            requires
                                r < old_img.height,
                                0 <= s,
                        ;
                        assert(s * old_img.height == old_img.height * s) by (nonlinear_arith);
                    } else {
                        assert(old_img.height as int * s <= r * s) by (nonlinear_arith)
                            requires
                                old_img.height <= r,
                                0 <= s,
                        ;
                        assert(s * old_img.height == old_img.height * s) by (nonlinear_arith);
                    }
                }
                assert(self.data@ =~= target);
            }
        } else {
            let mut new_data = vec![fill; new_len];
            let copy_rows = if self.height < new_height { self.height } else { new_height };
            let copy_bytes = if self.stride < new_stride { self.stride } else { new_stride };
            let mut row: u32 = 0;
            while row < copy_rows
                invariant
                    old_img == *self,
                    old_img.wf(),
                    new_len as int == new_stride as int * new_height as int,
                    new_len <= u32::MAX,
                    new_stride as int == stride_of(new_width as int),
                    copy_rows <= old_img.height,
                    copy_rows <= new_height,
                    copy_bytes <= old_img.stride,
                    copy_bytes <= new_stride,
                    row <= copy_rows,
                    new_data@.len() == new_len,
                    fill == (if fill_black { 0xFFu8 } else { 0u8 }),
                    forall|i: int|
                        0 <= i < new_len ==> #[trigger] new_data@[i] == if i / (new_stride as int)
                            < row && i % (new_stride as int) < copy_bytes {
                            old_img.data@[(i / (new_stride as int)) * old_img.stride + i % (
                            new_stride as int)]
                        } else {
                            fill
                        },
                decreases copy_rows - row,
            {
                proof {
                    assert(row as int * old_img.stride + old_img.stride <= old_img.height as int
                        * old_img.stride) by (nonlinear_arith)
                        requires
                            row < old_img.height,
                            0 <= old_img.stride,
                    ;
                    assert(old_img.stride as int * old_img.height == old_img.height as int
                        * old_img.stride) by (nonlinear_arith);
                    assert(row as int * new_stride + new_stride <= new_height as int * new_stride)
                        by (nonlinear_arith)
                        requires
                            row < new_height,
                            0 <= new_stride,
                    ;
                    assert(new_stride as int * new_height == new_height as int * new_stride)
                        by (nonlinear_arith);
                }
                let src_off = (row * self.stride) as usize;
                let dst_off = (row * new_stride) as usize;
                let mut k: u32 = 0;
                while k < copy_bytes
                    invariant
                        old_img == *self,
                        old_img.wf(),
                        new_len as int == new_stride as int * new_height as int,
                        0 < new_stride || copy_bytes == 0,
                        copy_bytes <= old_img.stride,
                        copy_bytes <= new_stride,
                        row < copy_rows,
                        copy_rows <= old_img.height,
                        copy_rows <= new_height,
                        k <= copy_bytes,
                        src_off == row * old_img.stride,
                        dst_off == row * new_stride,
                        row as int * old_img.stride + old_img.stride <= old_img.data@.len(),
                        row as int * new_stride + new_stride <= new_len,
                        new_data@.len() == new_len,
                        forall|i: int|
                            0 <= i < new_len ==> #[trigger] new_data@[i] == if (i / (new_stride as int)
                                < row && i % (new_stride as int) < copy_bytes) || (i / (new_stride as int)
                                == row && i % (new_stride as int) < k) {
                                old_img.data@[(i / (new_stride as int)) * old_img.stride + i % (
                                new_stride as int)]
                            } else {
                                fill
                            },
                    decreases copy_bytes - k,
                {
                    let b = self.data[src_off + k as usize];
                    new_data.set(dst_off + k as usize, b);
                    proof {
                        let j = dst_off + k;
                        let s = new_stride as int;
                        assert(j / s == row as int && j % s == k as int) by (nonlinear_arith)
                            requires
                                j == row * s + k,
                                0 <= k < s,
                                0 <= row,
                        ;
                        assert forall|i: int| 0 <= i < new_len implies #[trigger] new_data@[i]
                            == if (i / s < row && i % s < copy_bytes) || (i / s == row && i % s < k
                            + 1) {
                            old_img.data@[(i / s) * old_img.stride + i % s]
                        } else {
                            fill
                        } by {
                            if i / s == row as int && i % s == k as int {
                                assert(i == (i / s) * s + i % s) by (nonlinear_arith)
                                    requires
                                        0 < s,
                                ;
                            }
                        }
                    }
                    k += 1;
                }
                row += 1;
                proof {
                    let s = new_stride as int;
                    assert forall|i: int| 0 <= i < new_len implies #[trigger] new_data@[i]
                        == if i / s < row && i % s < copy_bytes {
                        old_img.data@[(i / s) * old_img.stride + i % s]
                    } else {
                        fill
                    } by {
                        assert(s > 0) by {
                            lemma_index_split(i, s, new_height as int);
                        }
                    }
                }
            }
            self.data = new_data;
            proof {
                let target = resized_data(&old_img, new_width, new_height, fill_black);
                let s = new_stride as int;
                assert forall|i: int| 0 <= i < new_len implies self.data@[i] == target[i] by {
                    lemma_index_split(i, s, new_height as int);
                }
                assert(self.data@ =~= target);
            }
        }
        self.width = new_width;
        self.height = new_height;
        self.stride = new_stride;
    }
}

pub proof fn lemma_compose_bit_range(op: ComposeOp, d: u8, s: u8)
    requires
        d <= 1,
        s <= 1,
    ensures
        compose_bit(op, d, s) <= 1,
        d ^ s == if s == 0 { d } else { (1 - d) as u8 },
{
    assert(d <= 1 && s <= 1 ==> (d | s) <= 1 && (d & s) <= 1 && (d ^ s) <= 1 && ((d ^ s) ^ 1) <= 1 && d ^ s == if s
        == 0 { d } else { (1 - d) as u8 }) by (bit_vector);
}

/// Pixel (px, py) of a `w` x `h` destination is covered by `src` placed with its origin
/// at (dx, dy).
pub open spec fn covered(w: int, h: int, src: &Jbig2Image, dx: int, dy: int, px: int, py: int) -> bool {
    &&& 0 <= px < w
    &&& 0 <= py < h
    &&& 0 <= px - dx < src.width
    &&& 0 <= py - dy < src.height
}

/// Pixel (px, py) of the `w` x `h` bitmap stored in `data` after composing `src` onto
/// it at (dx, dy) with `op`.
pub open spec fn composed_pixel_in(
    w: int,
    h: int,
    stride: int,
    data: Seq<u8>,
    src: &Jbig2Image,
    dx: int,
    dy: int,
    op: ComposeOp,
    px: int,
    py: int,
) -> u8 {
    if covered(w, h, src, dx, dy, px, py) {
        compose_bit(op, pixel_in(w, h, stride, data, px, py), src.spec_pixel(px - dx, py - dy))
    } else {
        pixel_in(w, h, stride, data, px, py)
    }
}

/// Pixel (px, py) of `dst` after composing `src` onto it at (dx, dy) with `op`.
pub open spec fn composed_pixel(
    dst: &Jbig2Image,
    src: &Jbig2Image,
    dx: int,
    dy: int,
    op: ComposeOp,
    px: int,
    py: int,
) -> u8 {
    composed_pixel_in(dst.width as int, dst.height as int, dst.stride as int, dst.data@, src, dx, dy, op, px, py)
}

impl Jbig2Image {
    /// Combine `src`, placed with its top-left corner at (dx, dy), into this image with
    /// `op`; the parts of `src` that fall outside this image are ignored.
    pub fn compose(&mut self, src: &Jbig2Image, dx: i32, dy: i32, op: ComposeOp) -> (r: Result<(), crate::error::Jbig2Error>)
        requires
            old(self).wf(),
            src.wf(),
        ensures
            r is Ok,
            final(self).wf(),
            final(self).width == old(self).width,
            final(self).height == old(self).height,
            final(self).stride == old(self).stride,
            final(self).same_padding(&*old(self)),
            forall|px: int, py: int|
                #[trigger] final(self).spec_pixel(px, py) == composed_pixel(
                    &*old(self),
                    src,
                    dx as int,
                    dy as int,
                    op,
                    px,
                    py,
                ),
    {
        let ghost old_img = *self;
        let src_x_start: u32 = if dx < 0 { (0i64 - dx as i64) as u32 } else { 0 };
        let src_y_start: u32 = if dy < 0 { (0i64 - dy as i64) as u32 } else { 0 };
        let dst_x_start: u32 = if dx > 0 { dx as u32 } else { 0 };
        let dst_y_start: u32 = if dy > 0 { dy as u32 } else { 0 };
        let sw: u32 = if src.width > src_x_start { src.width - src_x_start } else { 0 };
        let dw: u32 = if self.width > dst_x_start { self.width - dst_x_start } else { 0 };
        let copy_w: u32 = if sw < dw { sw } else { dw };
        let sh: u32 = if src.height > src_y_start { src.height - src_y_start } else { 0 };
        let dh: u32 = if self.height > dst_y_start { self.height - dst_y_start } else { 0 };
        let copy_h: u32 = if sh < dh { sh } else { dh };
        proof {
            assert forall|px: int, py: int|
                covered(old_img.width as int, old_img.height as int, src, dx as int, dy as int, px, py) <==> (dst_x_start <= px
                    < dst_x_start + copy_w && dst_y_start <= py < dst_y_start + copy_h) by {}
            assert(src_x_start as int - dst_x_start as int == -(dx as int));
            assert(src_y_start as int - dst_y_start as int == -(dy as int));
        }
        if copy_w == 0 || copy_h == 0 {
            return Ok(());
        }
        let mut row: u32 = 0;
        while row < copy_h
            invariant
                self.wf(),
                src.wf(),
                old_img.wf(),
                self.width == old_img.width,
                self.height == old_img.height,
                self.stride == old_img.stride,
                self.same_padding(&old_img),
                row <= copy_h,
                dst_x_start + copy_w <= self.width,
                dst_y_start + copy_h <= self.height,
                src_x_start + copy_w <= src.width,
                src_y_start + copy_h <= src.height,
                src_x_start as int - dst_x_start as int == -(dx as int),
                src_y_start as int - dst_y_start as int == -(dy as int),
                forall|px: int, py: int|
                    covered(old_img.width as int, old_img.height as int, src, dx as int, dy as int, px, py) <==> (dst_x_start <= px
                        < dst_x_start + copy_w && dst_y_start <= py < dst_y_start + copy_h),
                forall|px: int, py: int|
                    #[trigger] self.spec_pixel(px, py) == if py < dst_y_start + row {
                        composed_pixel(&old_img, src, dx as int, dy as int, op, px, py)
                    } else {
                        old_img.spec_pixel(px, py)
                    },
            decreases copy_h - row,
        {
            let mut col: u32 = 0;
            while col < copy_w
                invariant
                    self.wf(),
                    src.wf(),
                    old_img.wf(),
                    self.width == old_img.width,
                    self.height == old_img.height,
                    self.stride == old_img.stride,
                    self.same_padding(&old_img),
                    row < copy_h,
                    col <= copy_w,
                    dst_x_start + copy_w <= self.width,
                    dst_y_start + copy_h <= self.height,
                    src_x_start + copy_w <= src.width,
                    src_y_start + copy_h <= src.height,
                    src_x_start as int - dst_x_start as int == -(dx as int),
                    src_y_start as int - dst_y_start as int == -(dy as int),
                    forall|px: int, py: int|
                        covered(old_img.width as int, old_img.height as int, src, dx as int, dy as int, px, py) <==> (dst_x_start
                            <= px < dst_x_start + copy_w && dst_y_start <= py < dst_y_start
                            + copy_h),
                    forall|px: int, py: int|
                        #[trigger] self.spec_pixel(px, py) == if py < dst_y_start + row || (py
                            == dst_y_start + row && px < dst_x_start + col) {
                            composed_pixel(&old_img, src, dx as int, dy as int, op, px, py)
                        } else {
                            old_img.spec_pixel(px, py)
                        },
                decreases copy_w - col,
            {
                let sv = src.get_pixel(src_x_start + col, src_y_start + row);
                let sx = dst_x_start + col;
                let sy = dst_y_start + row;
                let dv = self.get_pixel(sx, sy);
                let result: u8 = match op {
                    ComposeOp::Or => dv | sv,
                    ComposeOp::And => dv & sv,
                    ComposeOp::Xor => dv ^ sv,
                    ComposeOp::Xnor => (dv ^ sv) ^ 1,
                    ComposeOp::Replace => sv,
                };
                proof {
                    lemma_compose_bit_range(op, dv, sv);
                    assert(result == compose_bit(op, dv, sv));
                    assert(covered(old_img.width as int, old_img.height as int, src, dx as int, dy as int, sx as int, sy as int));
                }
                let ghost prev = *self;
                self.set_pixel(sx, sy, result);
                proof {
                    assert forall|px: int, py: int|
                        #![trigger byte_pos(self.stride as int, px, py)]
                        self.width <= px < 8 * self.stride && 0 <= py < self.height implies bit_of(
                            self.data@[byte_pos(self.stride as int, px, py)],
                            px % 8,
                        ) == bit_of(old_img.data@[byte_pos(old_img.stride as int, px, py)], px % 8) by {
                        assert(bit_of(self.data@[byte_pos(self.stride as int, px, py)], px % 8)
                            == bit_of(prev.data@[byte_pos(prev.stride as int, px, py)], px % 8));
                    }
                }
                col += 1;
            }
            row += 1;
        }
        Ok(())
    }
}

/// The data of `img` resized to `new_width` x `new_height`: byte `c` of row `r` comes
/// from the same place of the old data where both row and column exist in the old
/// image and the new row, and is a fill byte elsewhere.
pub open spec fn resized_data(img: &Jbig2Image, new_width: u32, new_height: u32, fill_black: bool) -> Seq<u8> {
    let s = stride_of(new_width as int);
    let fill: u8 = if fill_black { 0xFFu8 } else { 0u8 };
    Seq::new(
        (s * new_height as int) as nat,
        |i: int|
            if i / s < img.height && i % s < img.stride && i % s < s {
                img.data@[(i / s) * img.stride + i % s]
            } else {
                fill
            },
    )
}

/// Reading a pixel back after writing it gives the value written (black for a nonzero
/// value); every other pixel keeps its value.
pub proof fn law_set_pixel_read_back(img: Jbig2Image, x: int, y: int, v: u8)
    requires
        img.wf(),
        0 <= x < img.width,
        0 <= y < img.height,
    ensures
        forall|px: int, py: int|
            #[trigger] pixel_in(
                img.width as int,
                img.height as int,
                img.stride as int,
                set_pixel_data(img.stride as int, img.data@, x, y, v),
                px,
                py,
            ) == if px == x && py == y {
                if v != 0 {
                    1u8
                } else {
                    0u8
                }
            } else {
                img.spec_pixel(px, py)
            },
{
    let w = img.width as int;
    let h = img.height as int;
    let s = img.stride as int;
    lemma_pixel_index(x, y, w, h, s);
    let b = img.data@[byte_pos(s, x, y)];
    assert forall|px: int, py: int|
        #[trigger] pixel_in(w, h, s, set_pixel_data(s, img.data@, x, y, v), px, py) == if px == x && py == y {
            if v != 0 {
                1u8
            } else {
                0u8
            }
        } else {
            img.spec_pixel(px, py)
        } by {
        if 0 <= px < w && 0 <= py < h {
            lemma_pixel_index(px, py, w, h, s);
            if byte_pos(s, px, py) == byte_pos(s, x, y) {
                lemma_index_unique(py, px / 8, y, x / 8, s);
                lemma_with_bit(b, x % 8, v != 0, px % 8);
            }
        }
    }
}

/// Resizing keeps every pixel that lies inside both the old and the new size; the rows
/// added below the old image, and the bytes added right of the old rows, take the fill
/// value.
pub proof fn law_resize_keeps_pixels(img: Jbig2Image, new_width: u32, new_height: u32, fill_black: bool)
    requires
        img.wf(),
        new_width as int + 7 <= u32::MAX,
        stride_of(new_width as int) * new_height as int <= u32::MAX,
    ensures
        forall|x: int, y: int|
            0 <= x < new_width && 0 <= y < new_height ==> {
                let p = #[trigger] pixel_in(
                    new_width as int,
                    new_height as int,
                    stride_of(new_width as int),
                    resized_data(&img, new_width, new_height, fill_black),
                    x,
                    y,
                );
                &&& x < img.width && y < img.height ==> p == img.spec_pixel(x, y)
                &&& y >= img.height || x / 8 >= img.stride ==> p == if fill_black {
                    1u8
                } else {
                    0u8
                }
            },
{
    let s = stride_of(new_width as int);
    let nh = new_height as int;
    let d = resized_data(&img, new_width, new_height, fill_black);
    assert forall|x: int, y: int| 0 <= x < new_width && 0 <= y < new_height implies {
        let p = #[trigger] pixel_in(new_width as int, nh, s, d, x, y);
        &&& x < img.width && y < img.height ==> p == img.spec_pixel(x, y)
        &&& y >= img.height || x / 8 >= img.stride ==> p == if fill_black {
            1u8
        } else {
            0u8
        }
    } by {
        lemma_pixel_index(x, y, new_width as int, nh, s);
        let i = y * s + x / 8;
        assert(0 < s);
        assert(i / s == y && i % s == x / 8) by (nonlinear_arith)
            requires
                i == y * s + x / 8,
                0 <= x / 8 < s,
                0 <= y,
        ;
        if x < img.width && y < img.height {
            lemma_pixel_index(x, y, img.width as int, img.height as int, img.stride as int);
        }
        lemma_fill_bits(x % 8);
    }
}

/// Composing changes only the pixels that the placed source covers; there the result
/// combines the old pixel with the source pixel by `op` (the source pixel itself for
/// Replace).
pub proof fn law_compose_region(dst: Jbig2Image, src: Jbig2Image, dx: int, dy: int, op: ComposeOp, px: int, py: int)
    ensures
        !covered(dst.width as int, dst.height as int, &src, dx, dy, px, py) ==> composed_pixel(
            &dst,
            &src,
            dx,
            dy,
            op,
            px,
            py,
        ) == dst.spec_pixel(px, py),
        covered(dst.width as int, dst.height as int, &src, dx, dy, px, py) && op == ComposeOp::Replace
            ==> composed_pixel(&dst, &src, dx, dy, op, px, py) == src.spec_pixel(px - dx, py - dy),
        covered(dst.width as int, dst.height as int, &src, dx, dy, px, py) ==> composed_pixel(
            &dst,
            &src,
            dx,
            dy,
            op,
            px,
            py,
        ) == compose_bit(op, dst.spec_pixel(px, py), src.spec_pixel(px - dx, py - dy)),
{
}

} // verus!
