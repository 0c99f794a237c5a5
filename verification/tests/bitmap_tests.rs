use faststrings::search::{bitmap_contains, build_byte_bitmap, contains_small_set};

#[test]
fn test_byte_bitmap_membership() {
    let bm = build_byte_bitmap(b"az09\x80\xFF");
    for c in 0..=255u8 {
        let expected = b"az09\x80\xFF".contains(&c);
        assert_eq!(bitmap_contains(&bm, c), expected);
    }

    let empty = build_byte_bitmap(b"");
    for c in 0..=255u8 {
        assert!(!bitmap_contains(&empty, c));
    }
}

#[test]
fn test_contains_small_set() {
    assert!(contains_small_set(b"abcd", b'c'));
    assert!(!contains_small_set(b"abcd", b'z'));
    assert!(contains_small_set(b"x", b'x'));
    assert!(!contains_small_set(b"", b'x'));
}
