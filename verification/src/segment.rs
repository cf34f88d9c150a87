//! Segment headers (ITU T.88 7.2) and the region segment information field (7.4.1).

use vstd::prelude::*;
use crate::bytes::{be_u16, be_u32, read_u16_be, read_u32_be};
use crate::error::Jbig2Error;

verus! {

/// Segment types (the low six bits of the segment header flags, 7.3).
#[derive(Debug, Clone, Copy, PartialEq, Eq, Structural)]
pub enum SegmentType {
    SymbolDictionary,
    IntermediateTextRegion,
    ImmediateTextRegion,
    ImmediateLosslessTextRegion,
    PatternDictionary,
    IntermediateHalftoneRegion,
    ImmediateHalftoneRegion,
    ImmediateLosslessHalftoneRegion,
    IntermediateGenericRegion,
    ImmediateGenericRegion,
    ImmediateLosslessGenericRegion,
    IntermediateGenericRefinementRegion,
    ImmediateGenericRefinementRegion,
    ImmediateLosslessGenericRefinementRegion,
    PageInformation,
    EndOfPage,
    EndOfStripe,
    EndOfFile,
    Profile,
    CodeTable,
    ColorPalette,
    Extension,
}

/// The segment type with type code `v`, if any (7.3).
pub open spec fn segment_type_of(v: u8) -> Option<SegmentType> {
    if v == 0 {
        Some(SegmentType::SymbolDictionary)
    } else if v == 4 {
        Some(SegmentType::IntermediateTextRegion)
    } else if v == 6 {
        Some(SegmentType::ImmediateTextRegion)
    } else if v == 7 {
        Some(SegmentType::ImmediateLosslessTextRegion)
    } else if v == 16 {
        Some(SegmentType::PatternDictionary)
    } else if v == 20 {
        Some(SegmentType::IntermediateHalftoneRegion)
    } else if v == 22 {
        Some(SegmentType::ImmediateHalftoneRegion)
    } else if v == 23 {
        Some(SegmentType::ImmediateLosslessHalftoneRegion)
    } else if v == 36 {
        Some(SegmentType::IntermediateGenericRegion)
    } else if v == 38 {
        Some(SegmentType::ImmediateGenericRegion)
    } else if v == 39 {
        Some(SegmentType::ImmediateLosslessGenericRegion)
    } else if v == 40 {
        Some(SegmentType::IntermediateGenericRefinementRegion)
    } else if v == 42 {
        Some(SegmentType::ImmediateGenericRefinementRegion)
    } else if v == 43 {
        Some(SegmentType::ImmediateLosslessGenericRefinementRegion)
    } else if v == 48 {
        Some(SegmentType::PageInformation)
    } else if v == 49 {
        Some(SegmentType::EndOfPage)
    } else if v == 50 {
        Some(SegmentType::EndOfStripe)
    } else if v == 51 {
        Some(SegmentType::EndOfFile)
    } else if v == 52 {
        Some(SegmentType::Profile)
    } else if v == 53 {
        Some(SegmentType::CodeTable)
    } else if v == 54 {
        Some(SegmentType::ColorPalette)
    } else if v == 62 {
        Some(SegmentType::Extension)
    } else {
        None
    }
}

impl SegmentType {
    /// The type code of the segment type (7.3), the inverse of `from_u8`.
    pub fn code(&self) -> (c: u8)
        ensures
            segment_type_of(c) == Some(*self),
    {
        match self {
            SegmentType::SymbolDictionary => 0,
            SegmentType::IntermediateTextRegion => 4,
            SegmentType::ImmediateTextRegion => 6,
            SegmentType::ImmediateLosslessTextRegion => 7,
            SegmentType::PatternDictionary => 16,
            SegmentType::IntermediateHalftoneRegion => 20,
            SegmentType::ImmediateHalftoneRegion => 22,
            SegmentType::ImmediateLosslessHalftoneRegion => 23,
            SegmentType::IntermediateGenericRegion => 36,
            SegmentType::ImmediateGenericRegion => 38,
            SegmentType::ImmediateLosslessGenericRegion => 39,
            SegmentType::IntermediateGenericRefinementRegion => 40,
            SegmentType::ImmediateGenericRefinementRegion => 42,
            SegmentType::ImmediateLosslessGenericRefinementRegion => 43,
            SegmentType::PageInformation => 48,
            SegmentType::EndOfPage => 49,
            SegmentType::EndOfStripe => 50,
            SegmentType::EndOfFile => 51,
            SegmentType::Profile => 52,
            SegmentType::CodeTable => 53,
            SegmentType::ColorPalette => 54,
            SegmentType::Extension => 62,
        }
    }
}

impl SegmentType {
    /// The segment type with type code `v`, `None` for codes T.88 does not define.
    pub fn from_u8(v: u8) -> (r: Option<Self>)
        ensures
            r == segment_type_of(v),
    {
        match v {
            0 => Some(Self::SymbolDictionary),
            4 => Some(Self::IntermediateTextRegion),
            6 => Some(Self::ImmediateTextRegion),
            7 => Some(Self::ImmediateLosslessTextRegion),
            16 => Some(Self::PatternDictionary),
            20 => Some(Self::IntermediateHalftoneRegion),
            22 => Some(Self::ImmediateHalftoneRegion),
            23 => Some(Self::ImmediateLosslessHalftoneRegion),
            36 => Some(Self::IntermediateGenericRegion),
            38 => Some(Self::ImmediateGenericRegion),
            39 => Some(Self::ImmediateLosslessGenericRegion),
            40 => Some(Self::IntermediateGenericRefinementRegion),
            42 => Some(Self::ImmediateGenericRefinementRegion),
            43 => Some(Self::ImmediateLosslessGenericRefinementRegion),
            48 => Some(Self::PageInformation),
            49 => Some(Self::EndOfPage),
            50 => Some(Self::EndOfStripe),
            51 => Some(Self::EndOfFile),
            52 => Some(Self::Profile),
            53 => Some(Self::CodeTable),
            54 => Some(Self::ColorPalette),
            62 => Some(Self::Extension),
            _ => None,
        }
    }
}

/// A parsed segment header.
#[derive(Debug, Clone)]
pub struct SegmentHeader {
    pub number: u32,
    /// The raw flags byte.
    pub flags: u8,
    /// The segment type (low six bits of the flags), `None` for an undefined code.
    pub seg_type: Option<SegmentType>,
    pub referred_to_segments: Vec<u32>,
    pub page_association: u32,
    /// Length of the segment data; 0xFFFFFFFF when unknown.
    pub data_length: u32,
}

/// Number of referred-to segments and the offset of their numbers (7.2.4).
pub open spec fn referred_layout(d: Seq<u8>) -> (int, int) {
    if d[5] & 0xE0 == 0xE0 {
        let count = be_u32(d, 5) & 0x1FFFFFFF;
        (count as int, 9 + (count as int + 1) / 8)
    } else {
        ((d[5] >> 5u8) as int, 6)
    }
}

/// Size of each referred-to segment number for segment `number` (7.2.5).
pub open spec fn ref_size(number: u32) -> int {
    if number <= 256 {
        1
    } else if number <= 65536 {
        2
    } else {
        4
    }
}

/// The referred-to segment number of `size` bytes at `off`.
pub open spec fn ref_at(d: Seq<u8>, off: int, size: int) -> u32 {
    if size == 1 {
        d[off] as u32
    } else if size == 2 {
        be_u16(d, off) as u32
    } else {
        be_u32(d, off)
    }
}

/// Size of the page association field (7.2.6).
pub open spec fn page_assoc_size(flags: u8) -> int {
    if flags & 0x40 != 0 {
        4
    } else {
        1
    }
}

/// Total size of the segment header at the start of `d` (needs at least 11 bytes).
pub open spec fn header_size(d: Seq<u8>) -> int {
    let (count, off) = referred_layout(d);
    off + count * ref_size(be_u32(d, 0)) + page_assoc_size(d[4]) + 4
}

/// A segment header's size is read from its first bytes: any prefix of at least 11 bytes
/// of a header gives the header's size, so a prefix shorter than the header is seen as
/// one that needs more bytes.
pub proof fn law_header_prefix_waits(d: Seq<u8>, q: Seq<u8>)
    requires
        d.len() >= 11,
        11 <= q.len() <= d.len(),
        forall|i: int| 0 <= i < q.len() ==> q[i] == d[i],
    ensures
        header_size(q) == header_size(d),
        q.len() < header_size(d) ==> q.len() < header_size(q),
{
    assert(q[0] == d[0] && q[1] == d[1] && q[2] == d[2] && q[3] == d[3] && q[4] == d[4]);
    assert(q[5] == d[5] && q[6] == d[6] && q[7] == d[7] && q[8] == d[8]);
    assert(be_u32(q, 0) == be_u32(d, 0));
    assert(be_u32(q, 5) == be_u32(d, 5));
}

/// The fields of the segment header at the start of `d`, once enough bytes are there.
pub open spec fn header_fields(d: Seq<u8>, h: SegmentHeader) -> bool {
    let (count, off) = referred_layout(d);
    let size = ref_size(be_u32(d, 0));
    let pa_off = off + count * size;
    &&& h.number == be_u32(d, 0)
    &&& h.flags == d[4]
    &&& h.seg_type == segment_type_of(d[4] & 63)
    &&& h.referred_to_segments@ == Seq::new(count as nat, |i: int| ref_at(d, off + i * size, size))
    &&& h.page_association == if page_assoc_size(d[4]) == 4 {
        be_u32(d, pa_off)
    } else {
        d[pa_off] as u32
    }
    &&& h.data_length == be_u32(d, pa_off + page_assoc_size(d[4]))
}

impl SegmentHeader {
    /// Parse the segment header at the start of `data`: `Ok(None)` while more bytes are
    /// needed, otherwise the header and its size in bytes.
    pub fn parse(data: &[u8]) -> (r: Result<Option<(Self, usize)>, Jbig2Error>)
        ensures
            data@.len() < 11 ==> r matches Ok(None),
            data@.len() >= 11 && be_u32(data@, 0) == 0xFFFFFFFF ==> r matches Err(
                Jbig2Error::InvalidData(_),
            ),
            data@.len() >= 11 && be_u32(data@, 0) != 0xFFFFFFFF ==> if data@.len() < header_size(
                data@,
            ) {
                r matches Ok(None)
            } else {
                r matches Ok(Some((h, n))) && n == header_size(data@) && header_fields(data@, h)
            },
    {
        if data.len() < 11 {
            return Ok(None);
        }
        let number = read_u32_be(data, 0);
        if number == 0xFFFFFFFF {
            return Err(Jbig2Error::InvalidData("segment number too large".to_owned()));
        }
        let flags = data[4];
        let seg_type = SegmentType::from_u8(flags & 63);
        let rtscarf = data[5];
        let (referred_to_count, offset0): (u32, usize) = if (rtscarf & 0xE0) == 0xE0 {
            let long_val = read_u32_be(data, 5);
            let count = long_val & 0x1FFFFFFF;
            assert(count <= 0x1FFFFFFF) by (bit_vector)
                requires
                    count == long_val & 0x1FFFFFFF,
            ;
            (count, 5 + 4 + ((count + 1) / 8) as usize)
        } else {
            ((rtscarf >> 5u8) as u32, 6)
        };
        let ref_seg_size: usize = if number <= 256 {
            1
        } else if number <= 65536 {
            2
        } else {
            4
        };
        let pa_size: usize = if flags & 0x40 != 0 { 4 } else { 1 };
        proof {
            assert(referred_to_count <= 0x1FFFFFFF) by {
                if (rtscarf & 0xE0) != 0xE0 {
                    assert(rtscarf >> 5u8 <= 7) by (bit_vector);
                }
            }
            assert(referred_to_count as int * ref_seg_size as int <= 0x1FFFFFFF * 4) by (nonlinear_arith)
                requires
                    referred_to_count <= 0x1FFFFFFF,
                    ref_seg_size <= 4,
            ;
        }
        let total_needed = offset0 + (referred_to_count as usize) * ref_seg_size + pa_size + 4;
        if data.len() < total_needed {
            return Ok(None);
        }
        let mut referred_to_segments: Vec<u32> = Vec::new();
        let mut offset = offset0;
        let mut k: u32 = 0;
        let ghost size = ref_seg_size as int;
        while k < referred_to_count
            invariant
                k <= referred_to_count,
                referred_to_count as int * size + offset0 + pa_size + 4 == total_needed,
                total_needed <= data@.len(),
                size == ref_seg_size,
                size == 1 || size == 2 || size == 4,
                offset == offset0 + k as int * size,
                referred_to_segments@ == Seq::new(k as nat, |i: int| ref_at(data@, offset0 + i * size, size)),
            decreases referred_to_count - k,
        {
            proof {
                assert(offset0 + k as int * size + size <= offset0 + referred_to_count as int * size)
                    by (nonlinear_arith)
                    requires
                        k < referred_to_count,
                        0 < size,
                ;
            }
            let seg_num: u32 = if ref_seg_size == 1 {
                data[offset] as u32
            } else if ref_seg_size == 2 {
                read_u16_be(data, offset) as u32
            } else {
                read_u32_be(data, offset)
            };
            referred_to_segments.push(seg_num);
            proof {
                assert((k + 1) as int * size == k as int * size + size) by (nonlinear_arith);
                assert(referred_to_segments@ =~= Seq::new((k + 1) as nat, |i: int| ref_at(data@, offset0 + i * size, size)));
            }
            offset = offset + ref_seg_size;
            k += 1;
        }
        let page_association = if pa_size == 4 {
            let v = read_u32_be(data, offset);
            offset = offset + 4;
            v
        } else {
            let v = data[offset] as u32;
            offset = offset + 1;
            v
        };
        let data_length = read_u32_be(data, offset);
        offset = offset + 4;
        Ok(Some((
            SegmentHeader {
                number,
                flags,
                seg_type,
                referred_to_segments,
                page_association,
                data_length,
            },
            offset,
        )))
    }
}

/// The region segment information field (7.4.1), 17 bytes.
#[derive(Debug, Clone, Copy)]
pub struct RegionSegmentInfo {
    pub width: u32,
    pub height: u32,
    pub x: u32,
    pub y: u32,
    pub flags: u8,
    /// External combination operator (low three bits of the flags).
    pub op: u8,
}

impl RegionSegmentInfo {
    /// Parse the region segment information field at the start of `data`.
    pub fn parse(data: &[u8]) -> (r: Result<Self, Jbig2Error>)
        ensures
            data@.len() < 17 ==> r matches Err(Jbig2Error::InvalidData(_)),
            data@.len() >= 17 ==> (r matches Ok(info) && info.width == be_u32(data@, 0)
                && info.height == be_u32(data@, 4) && info.x == be_u32(data@, 8) && info.y
                == be_u32(data@, 12) && info.flags == data@[16] && info.op == data@[16] & 0x07),
    {
        if data.len() < 17 {
            return Err(Jbig2Error::InvalidData("region segment info too short".to_owned()));
        }
        Ok(RegionSegmentInfo {
            width: read_u32_be(data, 0),
            height: read_u32_be(data, 4),
            x: read_u32_be(data, 8),
            y: read_u32_be(data, 12),
            flags: data[16],
            op: data[16] & 0x07,
        })
    }
}

} // verus!
