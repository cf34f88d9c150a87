//! Generic and halftone regions coded with MMR (T.88 6.2.6): line after line, each
//! against the one before.

use vstd::prelude::*;
use crate::bytes::{put_bytes, zero_bytes};
use crate::error::Jbig2Error;
use crate::image::Jbig2Image;
use crate::mmr::{decode_mmr_line, mmr_avail, mmr_start, opt_view, run_fuel, spec_line, MmrCtx, MmrLineState, MmrRegs, MINUS1};

verus! {

/// A white line of `n` bytes.
pub open spec fn blank_line(n: nat) -> Seq<u8> {
    Seq::new(n, |i: int| 0u8)
}

/// Decode lines `y` to `h - 1` of `stride` bytes each, each against the line before it
/// (none before the first), appending them to `acc`; stops after a line that ends with
/// EOFB. The registers after the last line, all lines, and whether EOFB ended them;
/// `None` for an invalid code.
#[verifier::opaque]
pub open spec fn mmr_lines(
    d: Seq<u8>,
    w: u32,
    stride: nat,
    h: int,
    r: MmrRegs,
    prev: Option<Seq<u8>>,
    y: int,
    acc: Seq<Seq<u8>>,
) -> Option<(MmrRegs, Seq<Seq<u8>>, bool)>
    decreases h - y,
{
    if y >= h {
        Some((r, acc, false))
    } else {
        match spec_line(d, w, prev, MmrLineState { regs: r, a0: MINUS1, c: 0, line: blank_line(stride) }, run_fuel(d, r)) {
            None => None,
            Some((r2, l, e)) => if e {
                Some((r2, acc.push(l), true))
            } else {
                mmr_lines(d, w, stride, h, r2, Some(l), y + 1, acc.push(l))
            },
        }
    }
}

proof fn lemma_mmr_lines_step(
    d: Seq<u8>,
    w: u32,
    stride: nat,
    h: int,
    r: MmrRegs,
    prev: Option<Seq<u8>>,
    y: int,
    acc: Seq<Seq<u8>>,
)
    requires
        y < h,
    ensures
        mmr_lines(d, w, stride, h, r, prev, y, acc) == match spec_line(
            d,
            w,
            prev,
            MmrLineState { regs: r, a0: MINUS1, c: 0, line: blank_line(stride) },
            run_fuel(d, r),
        ) {
            None => None,
            Some((r2, l, e)) => if e {
                Some((r2, acc.push(l), true))
            } else {
                mmr_lines(d, w, stride, h, r2, Some(l), y + 1, acc.push(l))
            },
        },
{
    reveal_with_fuel(mmr_lines, 1);
}

proof fn lemma_mmr_lines_end(
    d: Seq<u8>,
    w: u32,
    stride: nat,
    h: int,
    r: MmrRegs,
    prev: Option<Seq<u8>>,
    y: int,
    acc: Seq<Seq<u8>>,
)
    requires
        y >= h,
    ensures
        mmr_lines(d, w, stride, h, r, prev, y, acc) == Some((r, acc, false)),
{
    reveal_with_fuel(mmr_lines, 1);
}

/// Byte `k` of row `yy` of image data with rows of `s` bytes.
pub open spec fn row_byte(data: Seq<u8>, s: int, yy: int, k: int) -> u8 {
    data[yy * s + k]
}

/// Byte `k` of row `yy` after MMR decoding produced `lines` from image data `old`:
/// decoded rows take their line; after EOFB the rows that follow are white, unless
/// EOFB ended the very first line, which leaves them as they were.
pub open spec fn mmr_result_byte(old: Seq<u8>, s: int, lines: Seq<Seq<u8>>, eofb: bool, yy: int, k: int) -> u8 {
    if yy < lines.len() {
        lines[yy][k]
    } else if eofb && lines.len() >= 2 {
        0
    } else {
        row_byte(old, s, yy, k)
    }
}

/// Row `yy` of the bytes `[y*s, y*s + s)` is row `y`.
proof fn lemma_row_range(yy: int, k: int, y: int, s: int)
    requires
        0 <= k < s,
        0 <= yy,
        0 <= y,
    ensures
        (y * s <= yy * s + k < y * s + s) == (yy == y),
        yy < y ==> yy * s + k < y * s,
        yy > y ==> yy * s + k >= y * s + s,
{
    if yy < y {
        assert(yy * s + s <= y * s) by (nonlinear_arith)
            requires
                yy < y,
                0 <= s,
        ;
    } else if yy > y {
        assert(y * s + s <= yy * s) by (nonlinear_arith)
            requires
                y < yy,
                0 <= s,
        ;
    }
}

/// The bytes of an optional line.
pub open spec fn opt_vec_view(v: Option<Vec<u8>>) -> Option<Seq<u8>> {
    match v {
        Some(l) => Some(l@),
        None => None,
    }
}

proof fn lemma_row_start(y: int, s: int, h: int)
    requires
        0 <= y < h,
        0 <= s,
    ensures
        0 <= y * s,
        y * s + s <= s * h,
{
    assert(0 <= y * s) by (nonlinear_arith)
        requires
            0 <= y,
            0 <= s,
    ;
    assert(y * s + s <= h * s) by (nonlinear_arith)
        requires
            y < h,
            0 <= s,
    ;
    assert(h * s == s * h) by (nonlinear_arith);
}

proof fn lemma_row_in_data(yy: int, k: int, s: int, h: int)
    requires
        0 <= yy < h,
        0 <= k < s,
    ensures
        0 <= yy * s + k < s * h,
        yy * s + s <= s * h,
{
    assert(0 <= yy * s) by (nonlinear_arith)
        requires
            0 <= yy,
            0 <= s,
    ;
    assert(yy * s + s <= h * s) by (nonlinear_arith)
        requires
            yy < h,
            0 <= s,
    ;
    assert(h * s == s * h) by (nonlinear_arith);
}

/// The rows of a `s`-byte-row bitmap after writing bytes `[y*s, y*s + s)`: row `y` is
/// `line`, the others are unchanged.
proof fn lemma_write_row(old_d: Seq<u8>, new_d: Seq<u8>, s: int, h: int, y: int, line: Seq<u8>)
    requires
        0 <= y < h,
        0 <= s,
        line.len() == s,
        old_d.len() == s * h,
        new_d.len() == old_d.len(),
        forall|i: int|
            0 <= i < old_d.len() ==> #[trigger] new_d[i] == if y * s <= i < y * s + s {
                line[i - y * s]
            } else {
                old_d[i]
            },
    ensures
        forall|yy: int, k: int|
            0 <= yy < h && 0 <= k < s ==> #[trigger] row_byte(new_d, s, yy, k) == if yy == y {
                line[k]
            } else {
                row_byte(old_d, s, yy, k)
            },
{
    assert forall|yy: int, k: int| 0 <= yy < h && 0 <= k < s implies #[trigger] row_byte(new_d, s, yy, k) == if yy == y {
        line[k]
    } else {
        row_byte(old_d, s, yy, k)
    } by {
        lemma_row_in_data(yy, k, s, h);
        lemma_row_range(yy, k, y, s);
        assert(new_d[yy * s + k] == if y * s <= yy * s + k < y * s + s {
            line[yy * s + k - y * s]
        } else {
            old_d[yy * s + k]
        });
    }
}

/// Decode row `y` of `image` against the line `prev` (none for the first row); returns
/// whether EOFB ended the data and the line.
fn decode_row(mmr: &mut MmrCtx, image: &mut Jbig2Image, y: u32, prev: &Option<Vec<u8>>) -> (r: Result<(bool, Vec<u8>), Jbig2Error>)
    requires
        old(image).wf(),
        y < old(image).height,
        old(mmr).wf(),
        mmr_avail(old(mmr).bytes(), old(mmr).regs()) >= -62,
        old(mmr).line_width() == old(image).width,
    ensures
        final(image).wf(),
        final(image).width == old(image).width,
        final(image).height == old(image).height,
        final(image).stride == old(image).stride,
        final(mmr).wf(),
        final(mmr).bytes() == old(mmr).bytes(),
        final(mmr).line_width() == old(mmr).line_width(),
        match spec_line(
            old(mmr).bytes(),
            old(mmr).line_width(),
            opt_vec_view(*prev),
            MmrLineState {
                regs: old(mmr).regs(),
                a0: MINUS1,
                c: 0,
                line: blank_line(old(image).stride as nat),
            },
            run_fuel(old(mmr).bytes(), old(mmr).regs()),
        ) {
            None => r matches Err(e) && e is InvalidData,
            Some((r2, l, e)) => {
                &&& r matches Ok((e1, buf)) && e1 == e && buf@ == l
                &&& final(mmr).regs() == r2
                &&& mmr_avail(final(mmr).bytes(), final(mmr).regs()) >= -62
                &&& l.len() == old(image).stride
                &&& forall|yy: int, k: int|
                    0 <= yy < old(image).height && 0 <= k < old(image).stride ==> #[trigger] row_byte(
                        final(image).data@,
                        old(image).stride as int,
                        yy,
                        k,
                    ) == if yy == y {
                        l[k]
                    } else {
                        row_byte(old(image).data@, old(image).stride as int, yy, k)
                    }
            },
        },
{
    let ghost s = image.stride as int;
    let ghost h = image.height as int;
    proof {
        lemma_row_start(y as int, s, h);
    }
    assert(y * image.stride + image.stride <= image.stride * image.height);
    let stride = image.stride as usize;
    let dst_start = (y * image.stride) as usize;
    zero_bytes(&mut image.data, dst_start, dst_start + stride);
    let ghost d0 = image.data@;
    let ghost dz = old(image).data@;
    let mut line_buf = vec![0u8; stride];
    assert(line_buf@ =~= blank_line(stride as nat));
    let r = match prev {
        Some(p) => decode_mmr_line(mmr, Some(p.as_slice()), line_buf.as_mut_slice()),
        None => decode_mmr_line(mmr, None, line_buf.as_mut_slice()),
    };
    match r {
        Err(e) => Err(e),
        Ok(eofb) => {
            put_bytes(&mut image.data, dst_start, line_buf.as_slice());
            proof {
                assert forall|i: int| 0 <= i < dz.len() implies #[trigger] image.data@[i] == if y * s <= i < y * s + s {
                    line_buf@[i - y * s]
                } else {
                    dz[i]
                } by {
                    assert(d0[i] == if y * s <= i < y * s + s { 0u8 } else { dz[i] });
                }
                lemma_write_row(dz, image.data@, s, h, y as int, line_buf@);
            }
            Ok((eofb, line_buf))
        },
    }
}

/// Decode a generic region coded with MMR into `image`, row by row; returns the number of
/// bytes of `data` the code took.
pub fn decode_generic_mmr(data: &[u8], image: &mut Jbig2Image) -> (r: Result<usize, Jbig2Error>)
    requires
        old(image).wf(),
        data@.len() * 8 + 200 <= usize::MAX,
    ensures
        r matches Ok(n) ==> n <= data@.len(),
        final(image).wf(),
        final(image).width == old(image).width,
        final(image).height == old(image).height,
        final(image).stride == old(image).stride,
        match mmr_lines(
            data@,
            old(image).width,
            old(image).stride as nat,
            old(image).height as int,
            mmr_start(data@),
            None,
            0,
            Seq::empty(),
        ) {
            None => r matches Err(e) && e is InvalidData,
            Some((r2, lines, eofb)) => {
                &&& r == Ok::<usize, Jbig2Error>(((r2.consumed_bits + 7) / 8) as usize)
                &&& forall|yy: int, k: int|
                    0 <= yy < old(image).height && 0 <= k < old(image).stride ==> #[trigger] row_byte(
                        final(image).data@,
                        old(image).stride as int,
                        yy,
                        k,
                    ) == mmr_result_byte(old(image).data@, old(image).stride as int, lines, eofb, yy, k)
            },
        },
{
    let mut mmr = MmrCtx::new(image.width, data);
    let stride = image.stride as usize;
    let height = image.height;
    let ghost d = data@;
    let ghost w = image.width;
    let ghost s = stride as int;
    let ghost h = height as int;
    let ghost old_data = image.data@;
    let ghost mut acc: Seq<Seq<u8>> = Seq::empty();
    let ghost fin = mmr_lines(d, w, stride as nat, h, mmr.regs(), None, 0, acc);
    let mut prev: Option<Vec<u8>> = None;
    let mut y: u32 = 0;
    let mut res: Result<(), Jbig2Error> = Ok(());
    proof {
        if h == 0 {
            lemma_mmr_lines_end(d, w, stride as nat, h, mmr.regs(), None, 0, acc);
        }
    }
    while y < height
        invariant_except_break
            mmr_lines(d, w, stride as nat, h, mmr.regs(), opt_vec_view(prev), y as int, acc) == fin,
            acc.len() == y,
            y <= height,
            res is Ok,
            y == 0 <==> prev is None,
            y as int == h ==> fin == Some((mmr.regs(), acc, false)),
            mmr_avail(d, mmr.regs()) >= -62,
            forall|yy: int, k: int|
                0 <= yy < h && 0 <= k < s ==> #[trigger] row_byte(image.data@, s, yy, k) == if yy < y {
                    acc[yy][k]
                } else {
                    row_byte(old_data, s, yy, k)
                },
        invariant
            image.wf(),
            image.width == w,
            image.height == height,
            image.stride == stride,
            h == height,
            s == stride,
            mmr.wf(),
            mmr.bytes() == d,
            mmr.line_width() == w,
        ensures
            fin is None ==> (res matches Err(e) && e is InvalidData),
            fin matches Some((r2, lines, eofb)) ==> res is Ok && mmr.regs() == r2,
            fin matches Some((r2, lines, eofb)) ==> forall|yy: int, k: int|
                0 <= yy < h && 0 <= k < s ==> #[trigger] row_byte(image.data@, s, yy, k) == mmr_result_byte(
                    old_data,
                    s,
                    lines,
                    eofb,
                    yy,
                    k,
                ),
        decreases height - y,
    {
        let ghost r_before = mmr.regs();
        proof {
            lemma_mmr_lines_step(d, w, stride as nat, h, mmr.regs(), opt_vec_view(prev), y as int, acc);
        }
        match decode_row(&mut mmr, image, y, &prev) {
            Err(e) => {
                res = Err(e);
                break;
            },
            Ok((eofb, line_buf)) => {
                proof {
                    acc = acc.push(line_buf@);
                }
                if eofb {
                    if prev.is_some() {
                        let ghost d2 = image.data@;
                        proof {
                            lemma_row_start(y as int, s, h);
                        }
                        let from = (y as usize) * stride + stride;
                        zero_bytes(&mut image.data, from, stride * (height as usize));
                        proof {
                            assert forall|yy: int, k: int|
                                0 <= yy < h && 0 <= k < s implies #[trigger] row_byte(image.data@, s, yy, k) == if yy
                                <= y {
                                row_byte(d2, s, yy, k)
                            } else {
                                0u8
                            } by {
                                lemma_row_in_data(yy, k, s, h);
                                lemma_row_range(yy, k, y as int, s);
                            }
                        }
                    }
                    break;
                }
                prev = Some(line_buf);
                y += 1;
                proof {
                    if y as int == h {
                        lemma_mmr_lines_end(d, w, stride as nat, h, mmr.regs(), opt_vec_view(prev), y as int, acc);
                    }
                }
            },
        }
    }
    match res {
        Ok(()) => Ok(mmr.consumed_bytes()),
        Err(e) => Err(e),
    }
}

/// Decode a halftone region's gray-scale bitplane coded with MMR; returns the number of
/// bytes of `data` the code took.
pub fn decode_halftone_mmr(data: &[u8], image: &mut Jbig2Image) -> (r: Result<usize, Jbig2Error>)
    requires
        old(image).wf(),
        data@.len() * 8 + 200 <= usize::MAX,
    ensures
        final(image).wf(),
        final(image).width == old(image).width,
        final(image).height == old(image).height,
        final(image).stride == old(image).stride,
        match mmr_lines(
            data@,
            old(image).width,
            old(image).stride as nat,
            old(image).height as int,
            mmr_start(data@),
            None,
            0,
            Seq::empty(),
        ) {
            None => r matches Err(e) && e is InvalidData,
            Some((r2, lines, eofb)) => {
                &&& r == Ok::<usize, Jbig2Error>(((r2.consumed_bits + 7) / 8) as usize)
                &&& forall|yy: int, k: int|
                    0 <= yy < old(image).height && 0 <= k < old(image).stride ==> #[trigger] row_byte(
                        final(image).data@,
                        old(image).stride as int,
                        yy,
                        k,
                    ) == mmr_result_byte(old(image).data@, old(image).stride as int, lines, eofb, yy, k)
            },
        },
{
    decode_generic_mmr(data, image)
}

} // verus!
