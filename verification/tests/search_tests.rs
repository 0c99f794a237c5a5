use faststrings::search::{
    index, rindex, strcasestr, strchr, strchrnul, strcspn, strpbrk, strrchr, strspn, strstr,
};

#[test]
fn test_strchr_and_strchrnul() {
    assert_eq!(strchr(b"hello\0", b'l'), Some(2));
    assert_eq!(strchr(b"hello\0", b'w'), None);
    assert_eq!(strchr(b"hello\0", b'\0'), Some(5));
    assert_eq!(strchrnul(b"hello\0", b'l'), 2);
    assert_eq!(strchrnul(b"hello\0", b'x'), 5);
}

#[test]
fn test_strrchr_and_aliases() {
    assert_eq!(strrchr(b"hello\0", b'l'), Some(3));
    assert_eq!(index(b"hello\0", b'h'), Some(0));
    assert_eq!(rindex(b"hello\0", b'h'), Some(0));
}

#[test]
fn test_strstr_and_strcasestr() {
    assert_eq!(strstr(b"hello world\0", b"wor\0"), Some(6));
    assert_eq!(strstr(b"hello\0", b"\0"), Some(0));
    assert_eq!(strcasestr(b"Hello\0", b"hEl\0"), Some(0));
}

#[test]
fn test_strspn_strcspn_strpbrk() {
    assert_eq!(strspn(b"hello\0", b"ehlo\0"), 5);
    assert_eq!(strcspn(b"hello\0", b"lo\0"), 2);
    assert_eq!(strpbrk(b"hello\0", b"xyz\0"), None);
    assert_eq!(strpbrk(b"hello\0", b"lo\0"), Some(2));
}

#[test]
fn test_search_respects_terminator() {
    assert_eq!(strchr(b"hello\0world", b'w'), None);
    assert_eq!(strstr(b"hello world\0", b"xyz\0"), None);
    assert_eq!(strcasestr(b"abc\0", b"zzz\0"), None);
    assert_eq!(strspn(b"hello\0", b"xyz\0"), 0);
    assert_eq!(strcspn(b"hello\0", b"xyz\0"), 5);
}

#[test]
fn test_set_search_large_sets() {
    // More than four accept/reject bytes exercises the bitmap tier.
    assert_eq!(strspn(b"deadbeef42\0", b"abcdef\0"), 8);
    assert_eq!(strcspn(b"deadbeef42\0", b"012345\0"), 8);
    assert_eq!(strpbrk(b"deadbeef42\0", b"012345\0"), Some(8));
    assert_eq!(strpbrk(b"deadbeef\0", b"012345\0"), None);
}
