use chess::bits::BitOperations;

#[test]
fn lsb_and_msb_indexes() {
    let b: u64 = 0b10100;
    assert_eq!(2, b.lsb_index());
    assert_eq!(4, b.msb_index());
    assert_eq!(63, (1u64 << 63).lsb_index());
    assert_eq!(0, 1u64.msb_index());
}

#[test]
fn lsb_pop_clears_lowest_bit() {
    let mut b: u64 = 0b10100;
    assert_eq!(2, b.lsb_pop());
    assert_eq!(0b10000, b);
    assert_eq!(4, b.lsb_pop());
    assert_eq!(0, b);
}

#[test]
fn test_bit_reads_single_squares() {
    let b: u64 = 0x8000000000000001;
    assert!(b.test_bit(0));
    assert!(b.test_bit(63));
    assert!(!b.test_bit(1));
    assert!(!b.test_bit(62));
}

#[test]
fn toggle_bit_twice_is_identity() {
    for index in [0usize, 7, 13, 35, 63] {
        let original: u64 = 0x123456789abcdef0;
        let mut b = original;
        b.toggle_bit(index);
        assert_ne!(original, b);
        b.toggle_bit(index);
        assert_eq!(original, b);
    }
}
