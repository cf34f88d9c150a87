//! Run-length code tables of MMR decoding (ITU-T T.6 Tables 2 and 3), as two-level
//! lookup tables.

use vstd::prelude::*;

verus! {

/// Table lookup value for an invalid code.
pub const ERROR: i16 = -1;

/// Table lookup value for a run of zero bits that is no code.
pub const ZEROES: i16 = -2;

/// Table lookup value for the code that starts uncompressed mode.
pub const UNCOMPRESSED: i16 = -3;

/// White run-length code table, values: run lengths, or subtable offsets for codes
/// longer than the 8-bit first level.
pub const WHITE_VALS: [i16; 472] = [
    256, 272, 29, 30, 45, 46, 22, 22, 23, 23, 47, 48, 13, 13, 13, 13,
    20, 20, 33, 34, 35, 36, 37, 38, 19, 19, 31, 32, 1, 1, 1, 1,
    12, 12, 12, 12, 53, 54, 26, 26, 39, 40, 41, 42, 43, 44, 21, 21,
    28, 28, 61, 62, 63, 0, 320, 384, 10, 10, 10, 10, 10, 10, 10, 10,
    11, 11, 11, 11, 11, 11, 11, 11, 27, 27, 59, 60, 288, 290, 18, 18,
    24, 24, 49, 50, 51, 52, 25, 25, 55, 56, 57, 58, 192, 192, 192, 192,
    1664, 1664, 1664, 1664, 448, 512, 292, 640, 576, 294, 296, 298, 300, 302, 256, 256,
    2, 2, 2, 2, 2, 2, 2, 2, 2, 2, 2, 2, 2, 2, 2, 2,
    3, 3, 3, 3, 3, 3, 3, 3, 3, 3, 3, 3, 3, 3, 3, 3,
    128, 128, 128, 128, 128, 128, 128, 128, 8, 8, 8, 8, 8, 8, 8, 8,
    9, 9, 9, 9, 9, 9, 9, 9, 16, 16, 16, 16, 17, 17, 17, 17,
    4, 4, 4, 4, 4, 4, 4, 4, 4, 4, 4, 4, 4, 4, 4, 4,
    5, 5, 5, 5, 5, 5, 5, 5, 5, 5, 5, 5, 5, 5, 5, 5,
    14, 14, 14, 14, 15, 15, 15, 15, 64, 64, 64, 64, 64, 64, 64, 64,
    6, 6, 6, 6, 6, 6, 6, 6, 6, 6, 6, 6, 6, 6, 6, 6,
    7, 7, 7, 7, 7, 7, 7, 7, 7, 7, 7, 7, 7, 7, 7, 7,
    -1, -1, -1, -1, -1, -1, -1, -1, -1, -1, -1, -1, -1, -1, -1, -1,
    -1, -1, -1, -1, -1, -1, -1, -1, -1, -1, -1, -1, -1, -1, -1, -1,
    -2, -2, -2, -2, -2, -2, -2, -2, -2, -2, -2, -2, -2, -2, -2, -2,
    -2, -2, -2, -2, -2, -2, -2, -2, -2, -2, -2, -2, -2, -2, -2, -2,
    -3, -3, -3, -3, -3, -3, -3, -3, -3, -3, -3, -3, -3, -3, -3, -3,
    304, 304, 304, 304, 304, 304, 304, 304, 306, 306, 306, 306, 306, 306, 306, 306,
    308, 308, 308, 308, 308, 308, 308, 308, 310, 310, 310, 310, 310, 310, 310, 310,
    352, 390, 416, 418, 414, 412, 410, 408, 406, 404, 402, 400, 398, 396, 394, 392,
    1792, 1856, 1920, -1, 1600, 1536, 1472, 1408, 1344, 1280, 1216, 1152, 1088, 1024, 960, 896,
    1728, 1728, 704, 704, 768, 768, 832, 832, -1, -1, -1, -1, -1, -1, -1, -1,
    -1, -1, -1, -1, -1, -1, -1, -1, -1, -1, -1, -1, -1, -1, -1, -1,
    -1, -1, -1, -1, -1, -1, -1, -1, -1, -1, -1, -1, -1, -1, -1, -1,
    -1, -1, -1, -1, -1, -1, -1, -1, -1, -1, -1, -1, -1, -1, -1, -1,
    -1, -1, -1, -1, -1, -1, -1, -1,
];

/// White run-length code table, code lengths (first level) or subtable index widths.
pub const WHITE_BITS: [u8; 472] = [
    12, 12, 8, 8, 8, 8, 7, 7, 7, 7, 8, 8, 6, 6, 6, 6,
    7, 7, 8, 8, 8, 8, 8, 8, 7, 7, 8, 8, 6, 6, 6, 6,
    6, 6, 6, 6, 8, 8, 7, 7, 8, 8, 8, 8, 8, 8, 7, 7,
    7, 7, 8, 8, 8, 8, 8, 8, 5, 5, 5, 5, 5, 5, 5, 5,
    5, 5, 5, 5, 5, 5, 5, 5, 7, 7, 8, 8, 9, 9, 7, 7,
    7, 7, 8, 8, 8, 8, 7, 7, 8, 8, 8, 8, 6, 6, 6, 6,
    6, 6, 6, 6, 8, 8, 9, 8, 8, 9, 9, 9, 9, 9, 7, 7,
    4, 4, 4, 4, 4, 4, 4, 4, 4, 4, 4, 4, 4, 4, 4, 4,
    4, 4, 4, 4, 4, 4, 4, 4, 4, 4, 4, 4, 4, 4, 4, 4,
    5, 5, 5, 5, 5, 5, 5, 5, 5, 5, 5, 5, 5, 5, 5, 5,
    5, 5, 5, 5, 5, 5, 5, 5, 6, 6, 6, 6, 6, 6, 6, 6,
    4, 4, 4, 4, 4, 4, 4, 4, 4, 4, 4, 4, 4, 4, 4, 4,
    4, 4, 4, 4, 4, 4, 4, 4, 4, 4, 4, 4, 4, 4, 4, 4,
    6, 6, 6, 6, 6, 6, 6, 6, 5, 5, 5, 5, 5, 5, 5, 5,
    4, 4, 4, 4, 4, 4, 4, 4, 4, 4, 4, 4, 4, 4, 4, 4,
    4, 4, 4, 4, 4, 4, 4, 4, 4, 4, 4, 4, 4, 4, 4, 4,
    0, 0, 0, 0, 0, 0, 0, 0, 0, 0, 0, 0, 0, 0, 0, 0,
    0, 0, 0, 0, 0, 0, 0, 0, 0, 0, 0, 0, 0, 0, 0, 0,
    3, 3, 3, 3, 3, 3, 3, 3, 3, 3, 3, 3, 3, 3, 3, 3,
    3, 3, 3, 3, 3, 3, 3, 3, 3, 3, 3, 3, 3, 3, 3, 3,
    4, 4, 4, 4, 4, 4, 4, 4, 4, 4, 4, 4, 4, 4, 4, 4,
    9, 9, 9, 9, 9, 9, 9, 9, 9, 9, 9, 9, 9, 9, 9, 9,
    9, 9, 9, 9, 9, 9, 9, 9, 9, 9, 9, 9, 9, 9, 9, 9,
    12, 12, 12, 12, 12, 12, 12, 12, 12, 12, 12, 12, 12, 12, 12, 12,
    12, 12, 12, 0, 12, 12, 12, 12, 12, 12, 12, 12, 12, 12, 12, 12,
    11, 11, 11, 11, 11, 11, 11, 11, 0, 0, 0, 0, 0, 0, 0, 0,
    0, 0, 0, 0, 0, 0, 0, 0, 0, 0, 0, 0, 0, 0, 0, 0,
    0, 0, 0, 0, 0, 0, 0, 0, 0, 0, 0, 0, 0, 0, 0, 0,
    0, 0, 0, 0, 0, 0, 0, 0, 0, 0, 0, 0, 0, 0, 0, 0,
    0, 0, 0, 0, 0, 0, 0, 0,
];

/// Black run-length code table, values (7-bit first level).
pub const BLACK_VALS: [i16; 256] = [
    128, 160, 224, 256, 10, 11, 288, 12, 9, 9, 8, 8, 7, 7, 7, 7,
    6, 6, 6, 6, 6, 6, 6, 6, 5, 5, 5, 5, 5, 5, 5, 5,
    1, 1, 1, 1, 1, 1, 1, 1, 1, 1, 1, 1, 1, 1, 1, 1,
    4, 4, 4, 4, 4, 4, 4, 4, 4, 4, 4, 4, 4, 4, 4, 4,
    3, 3, 3, 3, 3, 3, 3, 3, 3, 3, 3, 3, 3, 3, 3, 3,
    3, 3, 3, 3, 3, 3, 3, 3, 3, 3, 3, 3, 3, 3, 3, 3,
    2, 2, 2, 2, 2, 2, 2, 2, 2, 2, 2, 2, 2, 2, 2, 2,
    2, 2, 2, 2, 2, 2, 2, 2, 2, 2, 2, 2, 2, 2, 2, 2,
    13, 13, 23, 54, 55, 56, 57, 58, 59, 60, 320, 384, 448, 17, 18, 19,
    20, 21, 22, 23, 24, 25, 26, 27, 28, 29, 30, 31, 32, 33, 34, 35,
    36, 37, 38, 39, 40, 41, 42, 43, 44, 45, 46, 47, 48, 49, 50, 51,
    52, 53, -1, -1, 512, 576, 640, 704, 768, 832, 896, 960, 1024, 1088, 1152, 1216,
    1280, 1344, 1408, 1472, 1536, 1600, 1664, 1728, 1792, 1856, 1920, -1, -1, -1, -1, -1,
    14, 14, 14, 14, 15, 15, 16, 0, 192, 64, 64, 64, 64, -1, -1, -1,
    -1, -1, -1, -1, -1, -1, -1, -1, -1, -1, -1, -1, -1, -1, -1, -1,
    -1, -1, -1, -1, -1, -1, -1, -1, -1, -1, -1, -1, -1, -1, -1, -1,
];

/// Black run-length code table, code lengths.
pub const BLACK_BITS: [u8; 256] = [
    12, 13, 12, 12, 7, 7, 12, 7, 6, 6, 6, 6, 5, 5, 5, 5,
    4, 4, 4, 4, 4, 4, 4, 4, 4, 4, 4, 4, 4, 4, 4, 4,
    3, 3, 3, 3, 3, 3, 3, 3, 3, 3, 3, 3, 3, 3, 3, 3,
    3, 3, 3, 3, 3, 3, 3, 3, 3, 3, 3, 3, 3, 3, 3, 3,
    2, 2, 2, 2, 2, 2, 2, 2, 2, 2, 2, 2, 2, 2, 2, 2,
    2, 2, 2, 2, 2, 2, 2, 2, 2, 2, 2, 2, 2, 2, 2, 2,
    2, 2, 2, 2, 2, 2, 2, 2, 2, 2, 2, 2, 2, 2, 2, 2,
    2, 2, 2, 2, 2, 2, 2, 2, 2, 2, 2, 2, 2, 2, 2, 2,
    11, 11, 12, 12, 12, 12, 12, 12, 12, 12, 12, 12, 12, 12, 12, 12,
    12, 12, 12, 12, 12, 12, 12, 12, 12, 12, 12, 12, 12, 12, 12, 12,
    12, 12, 12, 12, 12, 12, 12, 12, 12, 12, 12, 12, 12, 12, 12, 12,
    12, 12, 0, 0, 12, 12, 12, 12, 12, 12, 12, 12, 12, 12, 12, 12,
    12, 12, 12, 12, 12, 12, 12, 12, 12, 12, 12, 0, 0, 0, 0, 0,
    10, 10, 10, 10, 11, 11, 12, 12, 12, 10, 10, 10, 10, 0, 0, 0,
    0, 0, 0, 0, 0, 0, 0, 0, 0, 0, 0, 0, 0, 0, 0, 0,
    0, 0, 0, 0, 0, 0, 0, 0, 0, 0, 0, 0, 0, 0, 0, 0,
];

pub open spec fn white_vals() -> Seq<i16> {
    seq![
        256i16, 272, 29, 30, 45, 46, 22, 22, 23, 23, 47, 48, 13, 13, 13, 13,
    20, 20, 33, 34, 35, 36, 37, 38, 19, 19, 31, 32, 1, 1, 1, 1,
    12, 12, 12, 12, 53, 54, 26, 26, 39, 40, 41, 42, 43, 44, 21, 21,
    28, 28, 61, 62, 63, 0, 320, 384, 10, 10, 10, 10, 10, 10, 10, 10,
    11, 11, 11, 11, 11, 11, 11, 11, 27, 27, 59, 60, 288, 290, 18, 18,
    24, 24, 49, 50, 51, 52, 25, 25, 55, 56, 57, 58, 192, 192, 192, 192,
    1664, 1664, 1664, 1664, 448, 512, 292, 640, 576, 294, 296, 298, 300, 302, 256, 256,
    2, 2, 2, 2, 2, 2, 2, 2, 2, 2, 2, 2, 2, 2, 2, 2,
    3, 3, 3, 3, 3, 3, 3, 3, 3, 3, 3, 3, 3, 3, 3, 3,
    128, 128, 128, 128, 128, 128, 128, 128, 8, 8, 8, 8, 8, 8, 8, 8,
    9, 9, 9, 9, 9, 9, 9, 9, 16, 16, 16, 16, 17, 17, 17, 17,
    4, 4, 4, 4, 4, 4, 4, 4, 4, 4, 4, 4, 4, 4, 4, 4,
    5, 5, 5, 5, 5, 5, 5, 5, 5, 5, 5, 5, 5, 5, 5, 5,
    14, 14, 14, 14, 15, 15, 15, 15, 64, 64, 64, 64, 64, 64, 64, 64,
    6, 6, 6, 6, 6, 6, 6, 6, 6, 6, 6, 6, 6, 6, 6, 6,
    7, 7, 7, 7, 7, 7, 7, 7, 7, 7, 7, 7, 7, 7, 7, 7,
    -1i16, -1i16, -1i16, -1i16, -1i16, -1i16, -1i16, -1i16, -1i16, -1i16, -1i16, -1i16, -1i16, -1i16, -1i16, -1i16,
    -1i16, -1i16, -1i16, -1i16, -1i16, -1i16, -1i16, -1i16, -1i16, -1i16, -1i16, -1i16, -1i16, -1i16, -1i16, -1i16,
    -2i16, -2i16, -2i16, -2i16, -2i16, -2i16, -2i16, -2i16, -2i16, -2i16, -2i16, -2i16, -2i16, -2i16, -2i16, -2i16,
    -2i16, -2i16, -2i16, -2i16, -2i16, -2i16, -2i16, -2i16, -2i16, -2i16, -2i16, -2i16, -2i16, -2i16, -2i16, -2i16,
    -3i16, -3i16, -3i16, -3i16, -3i16, -3i16, -3i16, -3i16, -3i16, -3i16, -3i16, -3i16, -3i16, -3i16, -3i16, -3i16,
    304, 304, 304, 304, 304, 304, 304, 304, 306, 306, 306, 306, 306, 306, 306, 306,
    308, 308, 308, 308, 308, 308, 308, 308, 310, 310, 310, 310, 310, 310, 310, 310,
    352, 390, 416, 418, 414, 412, 410, 408, 406, 404, 402, 400, 398, 396, 394, 392,
    1792, 1856, 1920, -1i16, 1600, 1536, 1472, 1408, 1344, 1280, 1216, 1152, 1088, 1024, 960, 896,
    1728, 1728, 704, 704, 768, 768, 832, 832, -1i16, -1i16, -1i16, -1i16, -1i16, -1i16, -1i16, -1i16,
    -1i16, -1i16, -1i16, -1i16, -1i16, -1i16, -1i16, -1i16, -1i16, -1i16, -1i16, -1i16, -1i16, -1i16, -1i16, -1i16,
    -1i16, -1i16, -1i16, -1i16, -1i16, -1i16, -1i16, -1i16, -1i16, -1i16, -1i16, -1i16, -1i16, -1i16, -1i16, -1i16,
    -1i16, -1i16, -1i16, -1i16, -1i16, -1i16, -1i16, -1i16, -1i16, -1i16, -1i16, -1i16, -1i16, -1i16, -1i16, -1i16,
    -1i16, -1i16, -1i16, -1i16, -1i16, -1i16, -1i16, -1i16,
    ]
}

pub open spec fn white_bits() -> Seq<u8> {
    seq![
        12u8, 12, 8, 8, 8, 8, 7, 7, 7, 7, 8, 8, 6, 6, 6, 6,
    7, 7, 8, 8, 8, 8, 8, 8, 7, 7, 8, 8, 6, 6, 6, 6,
    6, 6, 6, 6, 8, 8, 7, 7, 8, 8, 8, 8, 8, 8, 7, 7,
    7, 7, 8, 8, 8, 8, 8, 8, 5, 5, 5, 5, 5, 5, 5, 5,
    5, 5, 5, 5, 5, 5, 5, 5, 7, 7, 8, 8, 9, 9, 7, 7,
    7, 7, 8, 8, 8, 8, 7, 7, 8, 8, 8, 8, 6, 6, 6, 6,
    6, 6, 6, 6, 8, 8, 9, 8, 8, 9, 9, 9, 9, 9, 7, 7,
    4, 4, 4, 4, 4, 4, 4, 4, 4, 4, 4, 4, 4, 4, 4, 4,
    4, 4, 4, 4, 4, 4, 4, 4, 4, 4, 4, 4, 4, 4, 4, 4,
    5, 5, 5, 5, 5, 5, 5, 5, 5, 5, 5, 5, 5, 5, 5, 5,
    5, 5, 5, 5, 5, 5, 5, 5, 6, 6, 6, 6, 6, 6, 6, 6,
    4, 4, 4, 4, 4, 4, 4, 4, 4, 4, 4, 4, 4, 4, 4, 4,
    4, 4, 4, 4, 4, 4, 4, 4, 4, 4, 4, 4, 4, 4, 4, 4,
    6, 6, 6, 6, 6, 6, 6, 6, 5, 5, 5, 5, 5, 5, 5, 5,
    4, 4, 4, 4, 4, 4, 4, 4, 4, 4, 4, 4, 4, 4, 4, 4,
    4, 4, 4, 4, 4, 4, 4, 4, 4, 4, 4, 4, 4, 4, 4, 4,
    0, 0, 0, 0, 0, 0, 0, 0, 0, 0, 0, 0, 0, 0, 0, 0,
    0, 0, 0, 0, 0, 0, 0, 0, 0, 0, 0, 0, 0, 0, 0, 0,
    3, 3, 3, 3, 3, 3, 3, 3, 3, 3, 3, 3, 3, 3, 3, 3,
    3, 3, 3, 3, 3, 3, 3, 3, 3, 3, 3, 3, 3, 3, 3, 3,
    4, 4, 4, 4, 4, 4, 4, 4, 4, 4, 4, 4, 4, 4, 4, 4,
    9, 9, 9, 9, 9, 9, 9, 9, 9, 9, 9, 9, 9, 9, 9, 9,
    9, 9, 9, 9, 9, 9, 9, 9, 9, 9, 9, 9, 9, 9, 9, 9,
    12, 12, 12, 12, 12, 12, 12, 12, 12, 12, 12, 12, 12, 12, 12, 12,
    12, 12, 12, 0, 12, 12, 12, 12, 12, 12, 12, 12, 12, 12, 12, 12,
    11, 11, 11, 11, 11, 11, 11, 11, 0, 0, 0, 0, 0, 0, 0, 0,
    0, 0, 0, 0, 0, 0, 0, 0, 0, 0, 0, 0, 0, 0, 0, 0,
    0, 0, 0, 0, 0, 0, 0, 0, 0, 0, 0, 0, 0, 0, 0, 0,
    0, 0, 0, 0, 0, 0, 0, 0, 0, 0, 0, 0, 0, 0, 0, 0,
    0, 0, 0, 0, 0, 0, 0, 0,
    ]
}

pub open spec fn black_vals() -> Seq<i16> {
    seq![
        128i16, 160, 224, 256, 10, 11, 288, 12, 9, 9, 8, 8, 7, 7, 7, 7,
    6, 6, 6, 6, 6, 6, 6, 6, 5, 5, 5, 5, 5, 5, 5, 5,
    1, 1, 1, 1, 1, 1, 1, 1, 1, 1, 1, 1, 1, 1, 1, 1,
    4, 4, 4, 4, 4, 4, 4, 4, 4, 4, 4, 4, 4, 4, 4, 4,
    3, 3, 3, 3, 3, 3, 3, 3, 3, 3, 3, 3, 3, 3, 3, 3,
    3, 3, 3, 3, 3, 3, 3, 3, 3, 3, 3, 3, 3, 3, 3, 3,
    2, 2, 2, 2, 2, 2, 2, 2, 2, 2, 2, 2, 2, 2, 2, 2,
    2, 2, 2, 2, 2, 2, 2, 2, 2, 2, 2, 2, 2, 2, 2, 2,
    13, 13, 23, 54, 55, 56, 57, 58, 59, 60, 320, 384, 448, 17, 18, 19,
    20, 21, 22, 23, 24, 25, 26, 27, 28, 29, 30, 31, 32, 33, 34, 35,
    36, 37, 38, 39, 40, 41, 42, 43, 44, 45, 46, 47, 48, 49, 50, 51,
    52, 53, -1i16, -1i16, 512, 576, 640, 704, 768, 832, 896, 960, 1024, 1088, 1152, 1216,
    1280, 1344, 1408, 1472, 1536, 1600, 1664, 1728, 1792, 1856, 1920, -1i16, -1i16, -1i16, -1i16, -1i16,
    14, 14, 14, 14, 15, 15, 16, 0, 192, 64, 64, 64, 64, -1i16, -1i16, -1i16,
    -1i16, -1i16, -1i16, -1i16, -1i16, -1i16, -1i16, -1i16, -1i16, -1i16, -1i16, -1i16, -1i16, -1i16, -1i16, -1i16,
    -1i16, -1i16, -1i16, -1i16, -1i16, -1i16, -1i16, -1i16, -1i16, -1i16, -1i16, -1i16, -1i16, -1i16, -1i16, -1i16,
    ]
}

pub open spec fn black_bits() -> Seq<u8> {
    seq![
        12u8, 13, 12, 12, 7, 7, 12, 7, 6, 6, 6, 6, 5, 5, 5, 5,
    4, 4, 4, 4, 4, 4, 4, 4, 4, 4, 4, 4, 4, 4, 4, 4,
    3, 3, 3, 3, 3, 3, 3, 3, 3, 3, 3, 3, 3, 3, 3, 3,
    3, 3, 3, 3, 3, 3, 3, 3, 3, 3, 3, 3, 3, 3, 3, 3,
    2, 2, 2, 2, 2, 2, 2, 2, 2, 2, 2, 2, 2, 2, 2, 2,
    2, 2, 2, 2, 2, 2, 2, 2, 2, 2, 2, 2, 2, 2, 2, 2,
    2, 2, 2, 2, 2, 2, 2, 2, 2, 2, 2, 2, 2, 2, 2, 2,
    2, 2, 2, 2, 2, 2, 2, 2, 2, 2, 2, 2, 2, 2, 2, 2,
    11, 11, 12, 12, 12, 12, 12, 12, 12, 12, 12, 12, 12, 12, 12, 12,
    12, 12, 12, 12, 12, 12, 12, 12, 12, 12, 12, 12, 12, 12, 12, 12,
    12, 12, 12, 12, 12, 12, 12, 12, 12, 12, 12, 12, 12, 12, 12, 12,
    12, 12, 0, 0, 12, 12, 12, 12, 12, 12, 12, 12, 12, 12, 12, 12,
    12, 12, 12, 12, 12, 12, 12, 12, 12, 12, 12, 0, 0, 0, 0, 0,
    10, 10, 10, 10, 11, 11, 12, 12, 12, 10, 10, 10, 10, 0, 0, 0,
    0, 0, 0, 0, 0, 0, 0, 0, 0, 0, 0, 0, 0, 0, 0, 0,
    0, 0, 0, 0, 0, 0, 0, 0, 0, 0, 0, 0, 0, 0, 0, 0,
    ]
}

/// A two-level code table with `2^initial` first-level entries: code lengths of at most
/// 13 bits, subtable offsets that are not negative, and at least one bit consumed by
/// every valid first-level code.
pub open spec fn code_table_ok(vals: Seq<i16>, bits: Seq<u8>, initial: u32) -> bool {
    &&& 1 <= initial <= 8
    &&& vals.len() == bits.len()
    &&& vals.len() <= 0x10000
    &&& vstd::arithmetic::power2::pow2(initial as nat) <= vals.len()
    &&& forall|i: int| 0 <= i < bits.len() ==> #[trigger] bits[i] <= 13
    &&& forall|i: int| 0 <= i < vals.len() ==> #[trigger] vals[i] >= -3
    &&& forall|i: int|
        0 <= i < vstd::arithmetic::power2::pow2(initial as nat) ==> (#[trigger] bits[i] > initial
            ==> vals[i] >= 0)
    &&& forall|i: int|
        0 <= i < vstd::arithmetic::power2::pow2(initial as nat) ==> (#[trigger] vals[i] >= 0 ==> bits[i]
            >= 1)
}

#[verifier::rlimit(100)]
pub proof fn lemma_mmr_tables()
    ensures
        WHITE_VALS@ == white_vals(),
        WHITE_BITS@ == white_bits(),
        BLACK_VALS@ == black_vals(),
        BLACK_BITS@ == black_bits(),
        code_table_ok(white_vals(), white_bits(), 8),
        code_table_ok(black_vals(), black_bits(), 7),
        white_bits()[0] == 12 && white_vals()[0] == 256 && white_vals()[256] == ERROR,
        black_bits()[0] == 12 && black_vals()[0] == 128 && black_vals()[128] == 13 && black_bits()[128] == 11,
{
    assert(WHITE_VALS@ == white_vals());
    assert(WHITE_BITS@ == white_bits());
    assert(BLACK_VALS@ == black_vals());
    assert(BLACK_BITS@ == black_bits());
    vstd::arithmetic::power2::lemma2_to64();
    assert(white_bits()[0] == 12 && white_vals()[0] == 256 && white_vals()[256] == ERROR);
    assert(black_bits()[0] == 12 && black_vals()[0] == 128 && black_vals()[128] == 13 && black_bits()[128] == 11);
    assert forall|i: int| 0 <= i < 472 implies #[trigger] white_bits()[i] <= 13 && white_vals()[i] >= -3 by {
    }
    assert forall|i: int| 0 <= i < 256 implies #[trigger] black_bits()[i] <= 13 && black_vals()[i] >= -3 by {
    }
    assert forall|i: int| 0 <= i < 256 implies (#[trigger] white_bits()[i] > 8 ==> white_vals()[i] >= 0) && (
    white_vals()[i] >= 0 ==> white_bits()[i] >= 1) by {
    }
    assert forall|i: int| 0 <= i < 128 implies (#[trigger] black_bits()[i] > 7 ==> black_vals()[i] >= 0) && (
    black_vals()[i] >= 0 ==> black_bits()[i] >= 1) by {
    }
}

} // verus!
