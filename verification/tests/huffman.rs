use justbig2::huffman::{
    build_standard_table, build_table, parse_user_table, standard_table_lines, HuffmanLine,
    HuffmanParams, HuffmanState, STANDARD_TABLE_HTOOB,
};

#[test]
fn build_standard_table_a() {
    let table = build_standard_table(0).unwrap();
    assert!(table.log_table_size > 0);
}

#[test]
fn build_with_oob() {
    let table = build_standard_table(1).unwrap();
    assert!(table.log_table_size > 0);
}

#[test]
fn all_standard_tables_valid() {
    for i in 0..15 {
        let result = build_standard_table(i);
        assert!(result.is_ok(), "standard table {i} failed to build: {:?}", result.err());
    }
}

#[test]
fn decode_table_a_values() {
    let data = [0x28, 0x00, 0x00, 0x00, 0x00, 0x00, 0x00, 0x00];
    let table = build_standard_table(0).unwrap();
    let mut hs = HuffmanState::new(&data);

    let (val, oob) = hs.get(&table).unwrap();
    assert!(!oob);
    assert_eq!(val, 5);
}

#[test]
fn decode_table_a_second_line() {
    let data = [0x80, 0xC0, 0x00, 0x00, 0x00, 0x00, 0x00, 0x00];
    let table = build_standard_table(0).unwrap();
    let mut hs = HuffmanState::new(&data);

    let (val, oob) = hs.get(&table).unwrap();
    assert!(!oob);
    assert_eq!(val, 19);
}

#[test]
fn decode_oob_signal() {
    let table = build_standard_table(1).unwrap();

    let data0 = [0x00, 0x00, 0x00, 0x00, 0x00, 0x00, 0x00, 0x00];
    let mut hs = HuffmanState::new(&data0);
    let (val, oob) = hs.get(&table).unwrap();
    assert_eq!(val, 0);
    assert!(!oob);

    let data1 = [0x80, 0x00, 0x00, 0x00, 0x00, 0x00, 0x00, 0x00];
    let mut hs = HuffmanState::new(&data1);
    let (val, oob) = hs.get(&table).unwrap();
    assert_eq!(val, 1);
    assert!(!oob);
}

#[test]
fn decode_oob_code_of_table_b() {
    // Code 111111 is the out-of-band value of Table B.2.
    let table = build_standard_table(1).unwrap();
    let data = [0xFC, 0x00, 0x00, 0x00, 0x00, 0x00, 0x00, 0x00];
    let mut hs = HuffmanState::new(&data);
    let (_, oob) = hs.get(&table).unwrap();
    assert!(oob);
    assert_eq!(hs.offset(), 0);
}

#[test]
fn decode_multiple_values() {
    let table = build_standard_table(13).unwrap();

    let data = [0x4A, 0x00, 0x00, 0x00, 0x00, 0x00, 0x00, 0x00];
    let mut hs = HuffmanState::new(&data);

    let (v1, _) = hs.get(&table).unwrap();
    assert_eq!(v1, 0);

    let (v2, _) = hs.get(&table).unwrap();
    assert_eq!(v2, -2);

    let (v3, _) = hs.get(&table).unwrap();
    assert_eq!(v3, -1);
}

#[test]
fn table_b1_known_values() {
    let table_a = standard_table_lines(0);
    assert_eq!(table_a[0].preflen, 1);
    assert_eq!(table_a[0].rangelen, 4);
    assert_eq!(table_a[0].rangelow, 0);
    assert_eq!(table_a[4].preflen, 3);
    assert_eq!(table_a[4].rangelen, 32);
    assert_eq!(table_a[4].rangelow, 65808);
}

#[test]
fn table_b4_known_values() {
    let table_d = standard_table_lines(3);
    assert_eq!(table_d[0].preflen, 1);
    assert_eq!(table_d[0].rangelen, 0);
    assert_eq!(table_d[0].rangelow, 1);
    assert_eq!(table_d.len(), 7);
}

#[test]
fn standard_table_line_counts() {
    assert_eq!(standard_table_lines(0).len(), 5);
    assert_eq!(standard_table_lines(1).len(), 8);
    assert_eq!(standard_table_lines(2).len(), 9);
    assert_eq!(standard_table_lines(3).len(), 7);
    assert_eq!(standard_table_lines(4).len(), 8);
    assert_eq!(standard_table_lines(5).len(), 14);
    assert_eq!(standard_table_lines(6).len(), 15);
    assert_eq!(standard_table_lines(7).len(), 21);
    assert_eq!(standard_table_lines(8).len(), 22);
    assert_eq!(standard_table_lines(9).len(), 21);
    assert_eq!(standard_table_lines(10).len(), 14);
    assert_eq!(standard_table_lines(11).len(), 15);
    assert_eq!(standard_table_lines(12).len(), 14);
    assert_eq!(standard_table_lines(13).len(), 7);
    assert_eq!(standard_table_lines(14).len(), 13);
}

#[test]
fn standard_tables_with_oob() {
    let with_oob: Vec<usize> = (0..15).filter(|&i| STANDARD_TABLE_HTOOB[i]).collect();
    assert_eq!(with_oob, vec![1, 2, 7, 8, 9]);
}

#[test]
fn standard_table_index_out_of_range() {
    assert!(build_standard_table(15).is_err());
}

#[test]
fn parse_user_table_basic() {
    let mut data = vec![0u8; 11];
    data[0] = 0x00;
    data[1] = 0;
    data[2] = 0;
    data[3] = 0;
    data[4] = 0;
    data[5] = 0;
    data[6] = 0;
    data[7] = 0;
    data[8] = 4;
    data[9] = 0xFC;
    data.push(0x00);

    let params = parse_user_table(&data).unwrap();
    assert!(!params.htoob);
    assert_eq!(params.lines.len(), 4);
    assert_eq!(params.lines[0].rangelow, 0);
    assert_eq!(params.lines[1].rangelow, 2);
}

#[test]
fn parse_user_table_with_oob() {
    let mut data = vec![0u8; 11];
    data[0] = 0x01;
    data[5] = 0;
    data[6] = 0;
    data[7] = 0;
    data[8] = 2;
    data[9] = 0xF8;
    data.push(0x00);

    let params = parse_user_table(&data).unwrap();
    assert!(params.htoob);
    assert_eq!(params.lines.len(), 4);
}

#[test]
fn parse_user_table_too_short() {
    assert!(parse_user_table(&[0u8; 8]).is_err());
}

#[test]
fn parse_user_table_lower_and_upper_lines() {
    let mut data = vec![0u8; 11];
    data[8] = 4;
    data[9] = 0xFC;
    data.push(0x00);
    let params = parse_user_table(&data).unwrap();
    // Lower range line: one below HTLOW, 32-bit range; upper: from HTHIGH.
    assert_eq!(params.lines[2].rangelow, -1);
    assert_eq!(params.lines[2].rangelen, 32);
    assert_eq!(params.lines[3].rangelow, 4);
    assert_eq!(params.lines[3].rangelen, 32);
}

#[test]
fn build_table_of_single_line() {
    let params = HuffmanParams {
        htoob: false,
        lines: vec![HuffmanLine { preflen: 1, rangelen: 0, rangelow: 7 }],
    };
    let table = build_table(&params).unwrap();
    assert_eq!(table.log_table_size, 1);
    let data = [0x00u8; 8];
    let mut hs = HuffmanState::new(&data);
    assert_eq!(hs.get(&table).unwrap(), (7, false));
}

#[test]
fn get_bits_basic() {
    let data = [0xAB, 0xCD, 0x00, 0x00, 0x00, 0x00, 0x00, 0x00];
    let mut hs = HuffmanState::new(&data);

    let v = hs.get_bits(8);
    assert_eq!(v, 0xAB);

    let v = hs.get_bits(4);
    assert_eq!(v, 0xC);
}

#[test]
fn align_boundary() {
    let data = [0xFF, 0xAB, 0x00, 0x00, 0x00, 0x00, 0x00, 0x00];
    let mut hs = HuffmanState::new(&data);

    hs.get_bits(3);
    hs.align();
    let v = hs.get_bits(8);
    assert_eq!(v, 0xAB);
}

#[test]
fn offset_counts_whole_bytes() {
    let data = [0xFF, 0xAB, 0x00, 0x00, 0x00, 0x00, 0x00, 0x00];
    let mut hs = HuffmanState::new(&data);
    assert_eq!(hs.offset(), 0);
    hs.get_bits(12);
    assert_eq!(hs.offset(), 1);
    hs.align();
    assert_eq!(hs.offset(), 2);
}
