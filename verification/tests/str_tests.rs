use faststrings::strings::{
    stpcpy, stpncpy, strcasecmp, strcat, strcmp, strcoll, strcpy, strdup, strlcat, strlcpy, strlen,
    strncasecmp, strncat, strncmp, strncpy, strndup, strnlen, strverscmp, strxfrm,
};

#[test]
fn test_strlen_and_strnlen_edges() {
    assert_eq!(strlen(b"\0"), 0);
    assert_eq!(strlen(b"abc\0def"), 3);
    assert_eq!(strlen(b"abc"), 3);

    assert_eq!(strnlen(b"abc\0def", 8), 3);
    assert_eq!(strnlen(b"abc\0def", 2), 2);
    assert_eq!(strnlen(b"abc", 5), 3);
}

#[test]
fn test_strlen_alignment_and_thresholds() {
    let mut buf = [0u8; 2048];
    for (i, b) in buf.iter_mut().enumerate() {
        let mut v = (i % 251) as u8;
        if v == 0 {
            v = 1;
        }
        *b = v;
    }

    for off in 0..32 {
        for len in [
            1usize, 7, 8, 15, 16, 31, 32, 63, 64, 65, 127, 128, 129, 255, 256, 257, 511, 512, 513,
            1024,
        ] {
            let mut local = buf;
            local[off + len] = 0;
            assert_eq!(strlen(&local[off..off + len + 1]), len);
            assert_eq!(strnlen(&local[off..off + len + 1], len + 1), len);
            assert_eq!(strnlen(&local[off..off + len + 1], len / 2), len / 2);
        }
    }
}

#[test]
fn test_strverscmp_numeric_ordering() {
    assert!(strverscmp(b"a1\0", b"a2\0") < 0);
    assert!(strverscmp(b"a2\0", b"a10\0") < 0);
    assert!(strverscmp(b"a10\0", b"a2\0") > 0);
}

#[test]
fn test_strverscmp_leading_zeros() {
    assert!(strverscmp(b"a01\0", b"a1\0") < 0);
    assert!(strverscmp(b"v000\0", b"v0\0") < 0);
}

#[test]
fn test_strdup_basic() {
    assert_eq!(strdup(b"abc\0"), b"abc\0");
}

#[test]
fn test_strdup_adds_terminator_when_missing() {
    assert_eq!(strdup(b"abc"), b"abc\0");
}

#[test]
fn test_strndup_stops_at_nul() {
    assert_eq!(strndup(b"ab\0cd", 5), b"ab\0");
}

#[test]
fn test_strndup_respects_limit() {
    assert_eq!(strndup(b"abcdef\0", 3), b"abc\0");
}

#[test]
fn test_stpncpy_short_source() {
    let mut dest = [0xAAu8; 8];
    let end = stpncpy(&mut dest, b"hi\0", 6);
    assert_eq!(end, 2);
    assert_eq!(&dest[..6], b"hi\0\0\0\0");
}

#[test]
fn test_stpncpy_no_padding() {
    let mut dest = [0u8; 4];
    let end = stpncpy(&mut dest, b"abcdef\0", 4);
    assert_eq!(end, 4);
    assert_eq!(&dest, b"abcd");
}

#[test]
fn test_strxfrm_copy_and_len() {
    let mut dest = [0u8; 8];
    let n = strxfrm(&mut dest, b"abc\0");
    assert_eq!(n, 3);
    assert_eq!(&dest[..4], b"abc\0");
}

#[test]
fn test_strxfrm_truncation_reports_full_len() {
    let mut dest = [0u8; 3];
    let n = strxfrm(&mut dest, b"hello\0");
    assert_eq!(n, 5);
    assert_eq!(&dest, b"he\0");
}

#[test]
fn test_strcpy_and_stpcpy() {
    let mut dest = [0u8; 10];
    let n = strcpy(&mut dest, b"hello\0");
    assert_eq!(n, 6);
    assert_eq!(&dest[..6], b"hello\0");

    let mut dest2 = [0xFFu8; 8];
    let end = stpcpy(&mut dest2, b"hey\0");
    assert_eq!(end, 3);
    assert_eq!(&dest2[..4], b"hey\0");
}

#[test]
fn test_strncpy_pads_with_nulls() {
    let mut dest = [0xFFu8; 10];
    strncpy(&mut dest, b"hi\0", 5);
    assert_eq!(&dest[..5], b"hi\0\0\0");
    assert_eq!(dest[5], 0xFF);
}

#[test]
fn test_strcat_strncat() {
    let mut dest = [0u8; 20];
    dest[..6].copy_from_slice(b"hello\0");
    let len = strcat(&mut dest, b" world\0");
    assert_eq!(len, 11);
    assert_eq!(&dest[..12], b"hello world\0");

    let mut dest2 = [0u8; 8];
    dest2[..2].copy_from_slice(b"a\0");
    let len2 = strncat(&mut dest2, b"bcd\0", 2);
    assert_eq!(len2, 3);
    assert_eq!(&dest2[..4], b"abc\0");
}

#[test]
fn test_strcmp_family() {
    assert!(strcmp(b"abc\0", b"abd\0") < 0);
    assert!(strcmp(b"abc\0", b"abc\0") == 0);
    assert!(strcmp(b"abd\0", b"abc\0") > 0);
    assert_eq!(strcoll(b"abc\0", b"abc\0"), 0);

    assert_eq!(strncmp(b"abcdef\0", b"abcxyz\0", 3), 0);
    assert!(strncmp(b"abc\0", b"abd\0", 3) < 0);
    assert_eq!(strncmp(b"abc\0", b"abd\0", 0), 0);

    assert_eq!(strcasecmp(b"Hello\0", b"hello\0"), 0);
    assert!(strcasecmp(b"ABC\0", b"abd\0") < 0);
    assert_eq!(strncasecmp(b"HeLLo\0", b"hellx\0", 4), 0);
}

#[test]
fn test_strlcpy_strlcat() {
    let mut dest = [0u8; 5];
    let len = strlcpy(&mut dest, b"hello world\0");
    assert_eq!(len, 11);
    assert_eq!(&dest, b"hell\0");

    let mut dest2 = [0u8; 8];
    dest2[..3].copy_from_slice(b"ab\0");
    let total = strlcat(&mut dest2, b"cdefgh\0");
    assert_eq!(total, 8);
    assert_eq!(&dest2, b"abcdefg\0");
}

#[test]
fn test_strverscmp_equal_and_fractional() {
    assert_eq!(strverscmp(b"abc\0", b"abc\0"), 0);
    assert_eq!(strverscmp(b"\0", b"\0"), 0);
    assert!(strverscmp(b"a01\0", b"a09\0") < 0);
    assert!(strverscmp(b"a00\0", b"a01\0") < 0);
    assert!(strverscmp(b"a\0", b"b\0") < 0);
}
