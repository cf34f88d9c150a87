use justbig2::arith::{ArithCx, ArithState};

/// A known-good arithmetic coded stream.
const TEST_STREAM: &[u8] = &[
    0x84, 0xC7, 0x3B, 0xFC, 0xE1, 0xA1, 0x43, 0x04, 0x02, 0x20, 0x00, 0x00,
    0x41, 0x0D, 0xBB, 0x86, 0xF4, 0x31, 0x7F, 0xFF, 0x88, 0xFF, 0x37, 0x47,
    0x1A, 0xDB, 0x6A, 0xDF, 0xFF, 0xAC,
    0x00, 0x00,
];

#[test]
fn decode_known_sequence() {
    let mut state = ArithState::new(TEST_STREAM).unwrap();
    let mut cx: ArithCx = 0;

    let mut bits = Vec::new();
    for _ in 0..256 {
        let d = state.decode(&mut cx).unwrap();
        assert!(d <= 1);
        bits.push(d);
    }

    let mut state2 = ArithState::new(TEST_STREAM).unwrap();
    let mut cx2: ArithCx = 0;
    for (i, &expected) in bits.iter().enumerate() {
        let d = state2.decode(&mut cx2).unwrap();
        assert_eq!(d, expected, "mismatch at bit {i}");
    }
}

#[test]
fn context_adaptation() {
    let mut state = ArithState::new(TEST_STREAM).unwrap();
    let mut cx: ArithCx = 0;

    let initial = cx;
    for _ in 0..20 {
        state.decode(&mut cx).unwrap();
    }
    assert_ne!(cx, initial, "context should adapt after decoding");
}

#[test]
fn ff_marker_handling() {
    let mut state = ArithState::new(TEST_STREAM).unwrap();
    let mut cx: ArithCx = 0;

    for _ in 0..256 {
        let result = state.decode(&mut cx);
        assert!(result.is_ok());
    }
}

#[test]
fn multiple_contexts() {
    let mut state = ArithState::new(TEST_STREAM).unwrap();
    let mut cx_a: ArithCx = 0;
    let mut cx_b: ArithCx = 0;

    for _ in 0..50 {
        state.decode(&mut cx_a).unwrap();
        state.decode(&mut cx_b).unwrap();
    }
}

#[test]
fn short_stream() {
    let data = [0x00, 0x00];
    let state = ArithState::new(&data);
    assert!(state.is_ok());
}

#[test]
fn single_byte_error() {
    let data: &[u8] = &[];
    let result = ArithState::new(data);
    assert!(result.is_err());
}

#[test]
fn decode_rejects_context_outside_table() {
    let mut state = ArithState::new(TEST_STREAM).unwrap();
    let mut cx: ArithCx = 47;
    assert!(state.decode(&mut cx).is_err());
    assert_eq!(cx, 47);
    // The same state then decodes as a fresh one does.
    let mut fresh = ArithState::new(TEST_STREAM).unwrap();
    let mut c1: ArithCx = 0;
    let mut c2: ArithCx = 0;
    for _ in 0..16 {
        assert_eq!(state.decode(&mut c1).unwrap(), fresh.decode(&mut c2).unwrap());
    }
}

#[test]
fn decode_in_updates_only_its_context() {
    let mut state = ArithState::new(TEST_STREAM).unwrap();
    let mut stats = vec![0u8; 4];
    for _ in 0..20 {
        let b = state.decode_in(&mut stats, 2);
        assert!(b <= 1);
    }
    assert_eq!(stats[0], 0);
    assert_eq!(stats[1], 0);
    assert_eq!(stats[3], 0);
    assert!((stats[2] & 0x7F) < 47);
}
