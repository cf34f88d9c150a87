use justbig2::decoder::{Decoder, DecoderState};
use justbig2::header::MAGIC;

fn make_minimal_jbig2(width: u32, height: u32) -> Vec<u8> {
    let mut buf = Vec::new();

    buf.extend_from_slice(&MAGIC);
    buf.push(0x01);
    buf.extend_from_slice(&1u32.to_be_bytes());

    buf.extend_from_slice(&0u32.to_be_bytes());
    buf.push(48);
    buf.push(0x00);
    buf.push(1);
    buf.extend_from_slice(&19u32.to_be_bytes());

    buf.extend_from_slice(&width.to_be_bytes());
    buf.extend_from_slice(&height.to_be_bytes());
    buf.extend_from_slice(&0u32.to_be_bytes());
    buf.extend_from_slice(&0u32.to_be_bytes());
    buf.push(0);
    buf.extend_from_slice(&0u16.to_be_bytes());

    buf.extend_from_slice(&1u32.to_be_bytes());
    buf.push(49);
    buf.push(0x00);
    buf.push(1);
    buf.extend_from_slice(&0u32.to_be_bytes());

    buf.extend_from_slice(&2u32.to_be_bytes());
    buf.push(51);
    buf.push(0x00);
    buf.push(0);
    buf.extend_from_slice(&0u32.to_be_bytes());

    buf
}

#[test]
fn sequential_state_machine() {
    let data = make_minimal_jbig2(8, 8);
    let mut dec = Decoder::new();

    dec.write(&data).unwrap();

    assert_eq!(dec.state, DecoderState::Eof);

    let page = dec.page_out();
    assert!(page.is_some());
    let img = page.unwrap();
    assert_eq!(img.width, 8);
    assert_eq!(img.height, 8);
}

#[test]
fn embedded_mode() {
    let mut dec = Decoder::new_embedded();
    assert_eq!(dec.state, DecoderState::SequentialHeader);

    let mut buf = Vec::new();

    buf.extend_from_slice(&0u32.to_be_bytes());
    buf.push(48);
    buf.push(0x00);
    buf.push(1);
    buf.extend_from_slice(&19u32.to_be_bytes());

    buf.extend_from_slice(&16u32.to_be_bytes());
    buf.extend_from_slice(&4u32.to_be_bytes());
    buf.extend_from_slice(&0u32.to_be_bytes());
    buf.extend_from_slice(&0u32.to_be_bytes());
    buf.push(0);
    buf.extend_from_slice(&0u16.to_be_bytes());

    buf.extend_from_slice(&1u32.to_be_bytes());
    buf.push(49);
    buf.push(0x00);
    buf.push(1);
    buf.extend_from_slice(&0u32.to_be_bytes());

    buf.extend_from_slice(&2u32.to_be_bytes());
    buf.push(51);
    buf.push(0x00);
    buf.push(0);
    buf.extend_from_slice(&0u32.to_be_bytes());

    dec.write(&buf).unwrap();

    let page = dec.page_out();
    assert!(page.is_some());
    let img = page.unwrap();
    assert_eq!(img.width, 16);
    assert_eq!(img.height, 4);
}

#[test]
fn incremental_write() {
    let data = make_minimal_jbig2(4, 4);
    let mut dec = Decoder::new();

    for &b in &data {
        dec.write(&[b]).unwrap();
    }

    assert_eq!(dec.state, DecoderState::Eof);
    assert!(dec.page_out().is_some());
}

#[test]
fn no_page_before_complete() {
    let mut buf = Vec::new();
    buf.extend_from_slice(&MAGIC);
    buf.push(0x01);
    buf.extend_from_slice(&1u32.to_be_bytes());

    let mut dec = Decoder::new();
    dec.write(&buf).unwrap();

    assert!(dec.page_out().is_none());
}

#[test]
fn page_out_hands_each_page_once() {
    let data = make_minimal_jbig2(8, 2);
    let mut dec = Decoder::new();
    dec.write(&data).unwrap();
    assert!(dec.page_out().is_some());
    assert!(dec.page_out().is_none());
}

#[test]
fn bad_magic_is_refused() {
    let mut dec = Decoder::new();
    let r = dec.write(&[0u8; 13]);
    assert!(r.is_err());
}

#[test]
fn header_split_over_writes() {
    let data = make_minimal_jbig2(8, 8);
    let mut dec = Decoder::new();
    dec.write(&data[..5]).unwrap();
    assert_eq!(dec.state, DecoderState::FileHeader);
    dec.write(&data[5..]).unwrap();
    assert_eq!(dec.state, DecoderState::Eof);
}

#[test]
fn parse_globals_reads_segments() {
    // One extension segment (type 62) with four bytes of data.
    let mut g = Vec::new();
    g.extend_from_slice(&7u32.to_be_bytes());
    g.push(62);
    g.push(0x00);
    g.push(0);
    g.extend_from_slice(&4u32.to_be_bytes());
    g.extend_from_slice(&[0, 0, 0, 3]);
    let segs = Decoder::parse_globals(&g).unwrap();
    assert_eq!(segs.len(), 1);
    assert_eq!(segs[0].header.number, 7);
    assert_eq!(segs[0].data, vec![0, 0, 0, 3]);
}

#[test]
fn stream_in_pieces_matches_whole() {
    let data = make_minimal_jbig2(12, 3);
    for cut in 0..=data.len() {
        let mut whole = Decoder::new();
        whole.write(&data).unwrap();
        let mut pieces = Decoder::new();
        pieces.write(&data[..cut]).unwrap();
        pieces.write(&data[cut..]).unwrap();
        assert_eq!(pieces.state, whole.state);
        let a = whole.page_out().unwrap();
        let b = pieces.page_out().unwrap();
        assert_eq!((a.width, a.height, a.data), (b.width, b.height, b.data));
    }
}

#[test]
fn default_decoder_reads_a_file() {
    let mut dec = Decoder::default();
    assert_eq!(dec.state, DecoderState::FileHeader);
    dec.write(&make_minimal_jbig2(8, 1)).unwrap();
    assert_eq!(dec.state, DecoderState::Eof);
}

#[test]
fn stream_one_byte_at_a_time_matches_whole() {
    let data = make_minimal_jbig2(12, 3);
    let mut whole = Decoder::new();
    whole.write(&data).unwrap();
    let mut pieces = Decoder::new();
    for b in data.iter() {
        pieces.write(&[*b]).unwrap();
    }
    assert_eq!(pieces.state, whole.state);
    let a = whole.page_out().unwrap();
    let b = pieces.page_out().unwrap();
    assert_eq!((a.width, a.height, a.data), (b.width, b.height, b.data));
}
