use justbig2::image::Jbig2Image;
use justbig2::mmr_region::{decode_generic_mmr, decode_halftone_mmr};

/// EOFB: two EOL codes, 000000000001 000000000001.
fn eofb_stream() -> Vec<u8> {
    vec![0x00, 0x10, 0x01, 0x00, 0x00, 0x00, 0x00, 0x00]
}

#[test]
fn decode_simple_page() {
    let data = eofb_stream();
    let mut image = Jbig2Image::new(8, 1);
    decode_generic_mmr(&data, &mut image).unwrap();

    for x in 0..8 {
        assert_eq!(image.get_pixel(x, 0), 0, "pixel {x} should be white");
    }
}

#[test]
fn decode_alternating_pattern() {
    let data = eofb_stream();
    let mut image = Jbig2Image::new(8, 4);
    decode_generic_mmr(&data, &mut image).unwrap();

    for y in 0..4 {
        for x in 0..8 {
            assert_eq!(image.get_pixel(x, y), 0);
        }
    }
}

#[test]
fn white_terminating_codes() {
    let data = eofb_stream();
    let mut image = Jbig2Image::new(16, 2);
    decode_generic_mmr(&data, &mut image).unwrap();
    assert!(image.data.iter().all(|&b| b == 0));
}

#[test]
fn black_terminating_codes() {
    let data = [0xFF; 16];
    let mut image = Jbig2Image::new(4, 1);
    let _ = decode_generic_mmr(&data, &mut image);
}

#[test]
fn makeup_codes() {
    let data = eofb_stream();
    let mut image = Jbig2Image::new(256, 1);
    decode_generic_mmr(&data, &mut image).unwrap();
    assert!(image.data.iter().all(|&b| b == 0));
}

#[test]
fn eofb_fills_remaining_rows() {
    let data = eofb_stream();
    let mut image = Jbig2Image::new(16, 8);
    decode_generic_mmr(&data, &mut image).unwrap();

    for y in 0..8 {
        for x in 0..16 {
            assert_eq!(image.get_pixel(x, y), 0);
        }
    }
}

#[test]
fn consumed_bytes_reported() {
    let data = eofb_stream();
    let mut image = Jbig2Image::new(8, 1);
    let consumed = decode_generic_mmr(&data, &mut image).unwrap();
    assert!(consumed > 0);
    assert!(consumed <= data.len());
}

#[test]
fn zero_height() {
    let data = eofb_stream();
    let mut image = Jbig2Image::new(8, 0);
    let result = decode_generic_mmr(&data, &mut image);
    assert!(result.is_ok());
}

#[test]
fn deterministic() {
    let data = eofb_stream();

    let mut img1 = Jbig2Image::new(16, 4);
    decode_generic_mmr(&data, &mut img1).unwrap();

    let mut img2 = Jbig2Image::new(16, 4);
    decode_generic_mmr(&data, &mut img2).unwrap();

    assert_eq!(img1.data, img2.data);
}

#[test]
fn vertical_zero_copies_reference_line() {
    // Three V0 codes ("1") per row: a blank reference line gives a white row.
    let data = [0xFF, 0xFF, 0x00, 0x00];
    let mut image = Jbig2Image::new(8, 2);
    image.clear(1);
    decode_generic_mmr(&data, &mut image).unwrap();
    assert!(image.data.iter().all(|&b| b == 0));
}

#[test]
fn horizontal_mode_black_run() {
    // H (001), white run 0 (00110101), black run 8 (000101): one black row.
    // Bits: 001 00110101 000101, then padding: 0010 0110 1010 0010 1000
    let data = [0x26, 0xA2, 0x80, 0x00, 0x00, 0x00];
    let mut image = Jbig2Image::new(8, 1);
    decode_generic_mmr(&data, &mut image).unwrap();
    assert_eq!(image.data[0], 0xFF);
}

#[test]
fn halftone_mmr_decodes_rows() {
    let data = eofb_stream();
    let mut image = Jbig2Image::new(8, 2);
    let n = decode_halftone_mmr(&data, &mut image).unwrap();
    assert!(n <= data.len());
    assert!(image.data.iter().all(|&b| b == 0));
}
