use faststrings::mem::{
    bcmp, bcopy, bzero, explicit_bzero, memccpy, memchr, memcmp, memcmp_n, memcpy, memmem, memmove,
    memmove_within, memrchr, memset,
};

#[test]
fn test_memcpy_memmove() {
    let mut dest = [0u8; 5];
    let src = *b"hello";
    assert_eq!(memcpy(&mut dest, &src), 5);
    assert_eq!(dest, src);

    let mut dest2 = [0u8; 3];
    assert_eq!(memmove(&mut dest2, &src), 3);
    assert_eq!(&dest2, b"hel");
}

#[test]
fn test_memcmp_variants() {
    assert_eq!(memcmp(b"abc", b"abc"), 0);
    assert!(memcmp(b"abc", b"abd") < 0);
    assert!(memcmp(b"abe", b"abd") > 0);
    assert_eq!(memcmp_n(b"abc", b"abd", 2), 0);
}

#[test]
fn test_memchr_memrchr() {
    assert_eq!(memchr(b"hello", b'l'), Some(2));
    assert_eq!(memrchr(b"hello", b'l'), Some(3));
    assert_eq!(memchr(b"hello", b'x'), None);
}

#[test]
fn test_memccpy_memmem() {
    let mut dest = [0u8; 10];
    assert_eq!(memccpy(&mut dest, b"hello world", b' '), Some(6));
    assert_eq!(&dest[..6], b"hello ");

    assert_eq!(memmem(b"hello world", b"wor"), Some(6));
    assert_eq!(memmem(b"hello world", b"xyz"), None);
    assert_eq!(memmem(b"hello", b""), Some(0));
}

#[test]
fn test_bzero_and_bcmp() {
    let mut buf = [1u8, 2, 3];
    bzero(&mut buf);
    assert_eq!(buf, [0u8; 3]);
    assert_eq!(bcmp(b"abc", b"abc"), 0);
}

#[test]
fn test_explicit_bzero() {
    let mut buf = [5u8, 6, 7];
    explicit_bzero(&mut buf);
    assert_eq!(buf, [0u8; 3]);
}

#[test]
fn test_bcopy_basic() {
    let src = *b"hello";
    let mut dst = [0u8; 5];
    let n = bcopy(&src, &mut dst);
    assert_eq!(n, 5);
    assert_eq!(&dst, b"hello");
}

#[test]
fn test_memset_fills_and_counts() {
    let mut buf = [0u8; 5];
    assert_eq!(memset(&mut buf, b'x'), 5);
    assert_eq!(&buf, b"xxxxx");
}

#[test]
fn test_memmove_within_forward_overlap() {
    let mut buf = *b"abcdef";
    memmove_within(&mut buf, 2, 0, 4);
    assert_eq!(&buf, b"ababcd");
}

#[test]
fn test_memmove_within_backward_overlap() {
    let mut buf = *b"abcdef";
    memmove_within(&mut buf, 0, 2, 4);
    assert_eq!(&buf, b"cdefef");
}

#[test]
fn test_memccpy_not_found_copies_window() {
    let mut dest = [0xAAu8; 4];
    assert_eq!(memccpy(&mut dest, b"hi", b'x'), None);
    assert_eq!(&dest[..2], b"hi");
    assert_eq!(&dest[2..], [0xAA, 0xAA]);
}
