use gtc::BitBoard;

#[test]
fn new_mask_is_empty() {
    let b = BitBoard::new();
    assert_eq!(b.num, 0);
    assert_eq!(b.to_string(), "0".repeat(64));
}

#[test]
fn set_marks_index_zero_as_most_significant() {
    let mut b = BitBoard::new();
    let r = b.set((1, 1));
    assert_eq!(r.num, 1u64 << 63);
    assert_eq!(b.num, 1u64 << 63);
    assert!(b.position((1, 1)));
    assert!(!b.position((2, 1)));
    let s = b.to_string();
    assert_eq!(&s[0..1], "1");
    assert_eq!(&s[1..], "0".repeat(63));
}

#[test]
fn set_twice_keeps_the_bit() {
    let mut b = BitBoard::new();
    b.set((3, 2));
    b.set((3, 2));
    assert!(b.position((3, 2)));
    assert_eq!(b.num, 1u64 << (63 - 10));
}

#[test]
fn set_ignores_invalid_squares() {
    let mut b = BitBoard::new();
    b.set((0, 1));
    b.set((1, 0));
    b.set((1, 9));
    assert_eq!(b.num, 0);
}

#[test]
fn fill_range_sets_each_index() {
    let mut b = BitBoard::new();
    b.fill_range(0..8);
    assert_eq!(b.num, 0xff00_0000_0000_0000);
    let mut o = BitBoard::new();
    o.fill_range(56..64);
    assert_eq!(o.num, 0xff);
    assert_eq!(o.to_string(), format!("{}{}", "0".repeat(56), "1".repeat(8)));
}

#[test]
fn from_bitarray_keeps_the_word() {
    assert_eq!(BitBoard::from_bitarray(5).num, 5);
}
