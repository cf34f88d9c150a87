use justbig2::decoder::{Decoder, DecoderState};
use justbig2::header::MAGIC;
use justbig2::image::Jbig2Image;
use justbig2::mmr_region::decode_generic_mmr;

#[test]
fn decode_embedded_stream() {
    // Build an embedded stream: page info + end of page + end of file
    let mut buf = Vec::new();

    // Segment 0: Page Information (type 48), data_length=19
    buf.extend_from_slice(&0u32.to_be_bytes());
    buf.push(48);
    buf.push(0x00);
    buf.push(1);
    buf.extend_from_slice(&19u32.to_be_bytes());

    // Page info: 8x8, no stripe
    buf.extend_from_slice(&8u32.to_be_bytes());
    buf.extend_from_slice(&8u32.to_be_bytes());
    buf.extend_from_slice(&0u32.to_be_bytes());
    buf.extend_from_slice(&0u32.to_be_bytes());
    buf.push(0);
    buf.extend_from_slice(&0u16.to_be_bytes());

    // Segment 1: End of Page (type 49)
    buf.extend_from_slice(&1u32.to_be_bytes());
    buf.push(49);
    buf.push(0x00);
    buf.push(1);
    buf.extend_from_slice(&0u32.to_be_bytes());

    // Segment 2: End of File (type 51)
    buf.extend_from_slice(&2u32.to_be_bytes());
    buf.push(51);
    buf.push(0x00);
    buf.push(0);
    buf.extend_from_slice(&0u32.to_be_bytes());

    let mut dec = Decoder::new_embedded();
    dec.write(&buf).unwrap();

    let page = dec.page_out();
    assert!(page.is_some());
    assert_eq!(page.unwrap().width, 8);
}

#[test]
fn empty_page() {
    // Page info + end of page, no content segments → blank page
    let mut buf = Vec::new();
    buf.extend_from_slice(&MAGIC);
    buf.push(0x01); // sequential, pages known
    buf.extend_from_slice(&1u32.to_be_bytes());

    // Page info: 16x16
    buf.extend_from_slice(&0u32.to_be_bytes());
    buf.push(48);
    buf.push(0x00);
    buf.push(1);
    buf.extend_from_slice(&19u32.to_be_bytes());
    buf.extend_from_slice(&16u32.to_be_bytes());
    buf.extend_from_slice(&16u32.to_be_bytes());
    buf.extend_from_slice(&0u32.to_be_bytes());
    buf.extend_from_slice(&0u32.to_be_bytes());
    buf.push(0);
    buf.extend_from_slice(&0u16.to_be_bytes());

    // End of page
    buf.extend_from_slice(&1u32.to_be_bytes());
    buf.push(49);
    buf.push(0x00);
    buf.push(1);
    buf.extend_from_slice(&0u32.to_be_bytes());

    // End of file
    buf.extend_from_slice(&2u32.to_be_bytes());
    buf.push(51);
    buf.push(0x00);
    buf.push(0);
    buf.extend_from_slice(&0u32.to_be_bytes());

    let mut dec = Decoder::new();
    dec.write(&buf).unwrap();

    let page = dec.page_out().unwrap();
    assert_eq!(page.width, 16);
    assert_eq!(page.height, 16);
    // All white (no content)
    assert!(page.data.iter().all(|&b| b == 0));
}

#[test]
fn missing_reference() {
    // Bad magic → error
    let data = [0x00; 20];
    let mut dec = Decoder::new();
    let result = dec.write(&data);
    assert!(result.is_err());
}

#[test]
fn bad_magic_keeps_file_header_state() {
    let data = [0x00; 20];
    let mut dec = Decoder::new();
    let result = dec.write(&data);
    assert!(matches!(result, Err(justbig2::Jbig2Error::InvalidData(_))));
    assert_eq!(dec.state, DecoderState::FileHeader);
}

#[test]
fn mmr_vertical_mode_at_line_start() {
    // Row 0: horizontal mode, white run 0, black run 4, then V0 → 11110000.
    // Row 1: V0 V0 V0 against row 0: a0 starts before the line, so b1 = 0 and the row
    // copies the reference row.
    let data = [0x26, 0xAF, 0xC0, 0x00, 0x00, 0x00, 0x00, 0x00];
    let mut image = Jbig2Image::new(8, 2);
    decode_generic_mmr(&data, &mut image).unwrap();
    assert_eq!(image.data, vec![0xF0, 0xF0]);
}

/// An embedded stream: a page, then a code table segment with `table` as its data.
fn stream_with_table(table: &[u8]) -> Vec<u8> {
    let mut buf = Vec::new();
    buf.extend_from_slice(&0u32.to_be_bytes());
    buf.push(48);
    buf.push(0x00);
    buf.push(1);
    buf.extend_from_slice(&19u32.to_be_bytes());
    buf.extend_from_slice(&8u32.to_be_bytes());
    buf.extend_from_slice(&8u32.to_be_bytes());
    buf.extend_from_slice(&0u32.to_be_bytes());
    buf.extend_from_slice(&0u32.to_be_bytes());
    buf.push(0);
    buf.extend_from_slice(&0u16.to_be_bytes());

    buf.extend_from_slice(&1u32.to_be_bytes());
    buf.push(53);
    buf.push(0x00);
    buf.push(1);
    buf.extend_from_slice(&(table.len() as u32).to_be_bytes());
    buf.extend_from_slice(table);

    buf.extend_from_slice(&2u32.to_be_bytes());
    buf.push(49);
    buf.push(0x00);
    buf.push(1);
    buf.extend_from_slice(&0u32.to_be_bytes());
    buf
}

#[test]
fn valid_code_table_is_accepted() {
    let mut table = vec![0u8; 11];
    table[8] = 4;
    table[9] = 0xFC;
    table.push(0x00);
    let pages = justbig2::decode_embedded(&stream_with_table(&table)).unwrap();
    assert_eq!(pages.len(), 1);
}

#[test]
fn truncated_code_table_is_refused() {
    let r = justbig2::decode_embedded(&stream_with_table(&[0x00, 0x00, 0x00]));
    assert!(matches!(r, Err(justbig2::Jbig2Error::InvalidData(_))));
}

/// An embedded stream: a 16 x 4 page, then an immediate refinement region segment with
/// `refs` referred-to segments over the whole page, then the end of the page.
fn stream_with_refinement(refs: &[u8]) -> Vec<u8> {
    let mut buf = Vec::new();
    buf.extend_from_slice(&0u32.to_be_bytes());
    buf.push(48);
    buf.push(0x00);
    buf.push(1);
    buf.extend_from_slice(&19u32.to_be_bytes());
    buf.extend_from_slice(&16u32.to_be_bytes());
    buf.extend_from_slice(&4u32.to_be_bytes());
    buf.extend_from_slice(&0u32.to_be_bytes());
    buf.extend_from_slice(&0u32.to_be_bytes());
    buf.push(0);
    buf.extend_from_slice(&0u16.to_be_bytes());

    let mut region = Vec::new();
    region.extend_from_slice(&16u32.to_be_bytes());
    region.extend_from_slice(&4u32.to_be_bytes());
    region.extend_from_slice(&0u32.to_be_bytes());
    region.extend_from_slice(&0u32.to_be_bytes());
    region.push(4); // REPLACE
    region.push(0x01); // template 1, no TPGRON
    region.extend_from_slice(&[0x84, 0xC7, 0x3B, 0xFC, 0xE1, 0xA1, 0x43, 0x04, 0x02, 0x20, 0x00, 0x00]);

    buf.extend_from_slice(&1u32.to_be_bytes());
    buf.push(42);
    buf.push(((refs.len() as u8) << 5) as u8);
    buf.extend_from_slice(refs);
    buf.push(1);
    buf.extend_from_slice(&(region.len() as u32).to_be_bytes());
    buf.extend_from_slice(&region);

    buf.extend_from_slice(&2u32.to_be_bytes());
    buf.push(49);
    buf.push(0x00);
    buf.push(1);
    buf.extend_from_slice(&0u32.to_be_bytes());
    buf
}

#[test]
fn refinement_region_is_decoded() {
    let a = justbig2::decode_embedded(&stream_with_refinement(&[])).unwrap();
    let b = justbig2::decode_embedded(&stream_with_refinement(&[])).unwrap();
    assert_eq!(a.len(), 1);
    assert_eq!((a[0].width, a[0].height, a[0].stride), (16, 4, 2));
    assert_eq!(a[0].data, b[0].data);
}

#[test]
fn refinement_of_referred_region_is_refused() {
    let r = justbig2::decode_embedded(&stream_with_refinement(&[0]));
    assert!(matches!(r, Err(justbig2::Jbig2Error::UnsupportedFeature(_))));
}

/// An embedded stream with one 12 x 2 page whose default pixel is black.
fn black_page_stream() -> Vec<u8> {
    let mut buf = Vec::new();
    buf.extend_from_slice(&0u32.to_be_bytes());
    buf.push(48);
    buf.push(0x00);
    buf.push(1);
    buf.extend_from_slice(&19u32.to_be_bytes());
    buf.extend_from_slice(&12u32.to_be_bytes());
    buf.extend_from_slice(&2u32.to_be_bytes());
    buf.extend_from_slice(&0u32.to_be_bytes());
    buf.extend_from_slice(&0u32.to_be_bytes());
    buf.push(0x04);
    buf.extend_from_slice(&0u16.to_be_bytes());
    buf.extend_from_slice(&1u32.to_be_bytes());
    buf.push(49);
    buf.push(0x00);
    buf.push(1);
    buf.extend_from_slice(&0u32.to_be_bytes());
    buf
}

#[test]
fn page_hands_out_the_image_bytes() {
    let data = black_page_stream();
    let mut a = Decoder::new_embedded();
    a.write(&data).unwrap();
    let mut b = Decoder::new_embedded();
    b.write(&data).unwrap();
    let page = a.page().unwrap();
    let img = b.page_out().unwrap();
    assert_eq!((page.width, page.height, page.stride), (img.width, img.height, img.stride));
    assert_eq!(page.data, img.data);
    for y in 0..2 {
        for x in 0..12 {
            assert_eq!(page.get_pixel(x, y), 1);
        }
    }
}

#[test]
fn pages_come_out_in_order_once() {
    let mut dec = Decoder::new_embedded();
    dec.write(&black_page_stream()).unwrap();
    assert!(dec.page().is_some());
    assert!(dec.page().is_none());
}
