use justbig2::header::MAGIC;
use justbig2::{decode, decode_embedded, Decoder, Page};

fn embedded_page_stream(width: u32, height: u32) -> Vec<u8> {
    let mut buf = Vec::new();

    buf.extend_from_slice(&0u32.to_be_bytes());
    buf.push(48);
    buf.push(0x00);
    buf.push(1);
    buf.extend_from_slice(&19u32.to_be_bytes());
    buf.extend_from_slice(&width.to_be_bytes());
    buf.extend_from_slice(&height.to_be_bytes());
    buf.extend_from_slice(&0u32.to_be_bytes());
    buf.extend_from_slice(&0u32.to_be_bytes());
    buf.push(0);
    buf.extend_from_slice(&0u16.to_be_bytes());

    buf.extend_from_slice(&1u32.to_be_bytes());
    buf.push(49);
    buf.push(0x00);
    buf.push(1);
    buf.extend_from_slice(&0u32.to_be_bytes());

    buf.extend_from_slice(&2u32.to_be_bytes());
    buf.push(51);
    buf.push(0x00);
    buf.push(0);
    buf.extend_from_slice(&0u32.to_be_bytes());
    buf
}

#[test]
fn api_embedded_flow() {
    let buf = embedded_page_stream(4, 4);
    let pages = decode_embedded(&buf).unwrap();
    assert_eq!(pages.len(), 1);
    assert_eq!(pages[0].width, 4);
    assert_eq!(pages[0].height, 4);
}

#[test]
fn decode_returns_empty_on_no_pages() {
    let mut buf = MAGIC.to_vec();
    buf.push(0x03);
    let pages = decode(&buf).unwrap();
    assert!(pages.is_empty());
}

#[test]
fn decode_file_with_one_page() {
    let mut buf = MAGIC.to_vec();
    buf.push(0x01);
    buf.extend_from_slice(&1u32.to_be_bytes());
    buf.extend_from_slice(&embedded_page_stream(64, 56));
    let pages = decode(&buf).unwrap();
    assert_eq!(pages.len(), 1);
    let page = &pages[0];
    assert_eq!(page.width, 64);
    assert_eq!(page.height, 56);
    assert_eq!(page.stride, 8);
    assert_eq!(page.data.len(), 8 * 56);
    assert_eq!(page.get_pixel(0, 0), 0);
    assert_eq!(page.get_pixel(64, 0), 0);
    assert_eq!(page.get_pixel(0, 56), 0);
}

#[test]
fn decoder_page_returns_completed_page() {
    let mut dec = Decoder::new_embedded();
    dec.write(&embedded_page_stream(16, 2)).unwrap();
    let page: Option<Page> = dec.page();
    assert!(page.is_some());
    let p = page.unwrap();
    assert_eq!(p.width, 16);
    assert_eq!(p.height, 2);
    assert!(dec.page().is_none());
}

#[test]
fn decode_refuses_bad_magic() {
    assert!(decode(&[0u8; 16]).is_err());
}

#[test]
fn page_get_pixel_reads_bits() {
    let p = Page { width: 9, height: 1, stride: 2, data: vec![0x80, 0x80] };
    assert_eq!(p.get_pixel(0, 0), 1);
    assert_eq!(p.get_pixel(1, 0), 0);
    assert_eq!(p.get_pixel(8, 0), 1);
    assert_eq!(p.get_pixel(9, 0), 0);
}

/// A file with one 8x2 page holding an 8x1 MMR-coded generic region, all black, at (0, 1).
fn file_with_generic_region() -> Vec<u8> {
    let mut buf = MAGIC.to_vec();
    buf.push(0x01);
    buf.extend_from_slice(&1u32.to_be_bytes());
    // Page information.
    buf.extend_from_slice(&0u32.to_be_bytes());
    buf.push(48);
    buf.push(0x00);
    buf.push(1);
    buf.extend_from_slice(&19u32.to_be_bytes());
    buf.extend_from_slice(&8u32.to_be_bytes());
    buf.extend_from_slice(&2u32.to_be_bytes());
    buf.extend_from_slice(&0u32.to_be_bytes());
    buf.extend_from_slice(&0u32.to_be_bytes());
    buf.push(0);
    buf.extend_from_slice(&0u16.to_be_bytes());
    // Immediate generic region: region info, MMR flag, one horizontal-mode line.
    buf.extend_from_slice(&1u32.to_be_bytes());
    buf.push(38);
    buf.push(0x00);
    buf.push(1);
    buf.extend_from_slice(&21u32.to_be_bytes());
    buf.extend_from_slice(&8u32.to_be_bytes());
    buf.extend_from_slice(&1u32.to_be_bytes());
    buf.extend_from_slice(&0u32.to_be_bytes());
    buf.extend_from_slice(&1u32.to_be_bytes());
    buf.push(0);
    buf.push(0x01);
    buf.extend_from_slice(&[0x26, 0xA2, 0x80]);
    // End of page, end of file.
    buf.extend_from_slice(&2u32.to_be_bytes());
    buf.push(49);
    buf.push(0x00);
    buf.push(1);
    buf.extend_from_slice(&0u32.to_be_bytes());
    buf.extend_from_slice(&3u32.to_be_bytes());
    buf.push(51);
    buf.push(0x00);
    buf.push(0);
    buf.extend_from_slice(&0u32.to_be_bytes());
    buf
}

#[test]
fn decode_renders_generic_region() {
    let pages = decode(&file_with_generic_region()).unwrap();
    assert_eq!(pages.len(), 1);
    let p = &pages[0];
    assert_eq!((p.width, p.height), (8, 2));
    for x in 0..8 {
        assert_eq!(p.get_pixel(x, 0), 0);
        assert_eq!(p.get_pixel(x, 1), 1);
    }
}

#[test]
fn pieces_render_as_whole() {
    let data = file_with_generic_region();
    let whole = decode(&data).unwrap();
    for cut in 0..=data.len() {
        let mut dec = Decoder::new();
        dec.write(&data[..cut]).unwrap();
        dec.write(&data[cut..]).unwrap();
        let p = dec.page().unwrap();
        assert_eq!(p.data, whole[0].data);
    }
}

#[test]
fn refused_segment_fails_whole_and_pieces() {
    // A colour palette segment (type 54) is refused.
    let mut data = MAGIC.to_vec();
    data.push(0x01);
    data.extend_from_slice(&1u32.to_be_bytes());
    data.extend_from_slice(&0u32.to_be_bytes());
    data.push(54);
    data.push(0x00);
    data.push(1);
    data.extend_from_slice(&0u32.to_be_bytes());
    assert!(decode(&data).is_err());
    let mut dec = Decoder::new();
    dec.write(&data[..20]).unwrap();
    assert!(dec.write(&data[20..]).is_err());
}
