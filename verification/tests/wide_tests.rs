use faststrings::token::wcstok;
use faststrings::types::wchar_t;
use faststrings::wide::{
    wcpcpy, wcpncpy, wcscasecmp, wcscat, wcschr, wcschrnul, wcscmp, wcscspn, wcsdup, wcslcat,
    wcslcpy, wcslen, wcsncasecmp, wcsncat, wcsncmp, wcsncpy, wcsnlen, wcspbrk, wcsrchr, wcsspn,
    wcsstr, wcscpy, wcsxfrm,
};

#[test]
fn test_wcslen_wcsnlen() {
    let s = [b'h' as wchar_t, b'i' as wchar_t, 0, b'!' as wchar_t];
    assert_eq!(wcslen(&s), 2);
    assert_eq!(wcsnlen(&s, 0), 0);
    assert_eq!(wcsnlen(&s, 1), 1);
    assert_eq!(wcsnlen(&s, 4), 2);
}

#[test]
fn test_wcscpy_wcsncpy() {
    let src = [b'a' as wchar_t, b'b' as wchar_t, 0];
    let mut dest = [0 as wchar_t; 5];
    wcscpy(&mut dest, &src);
    assert_eq!(dest[0], b'a' as wchar_t);
    assert_eq!(dest[1], b'b' as wchar_t);
    assert_eq!(dest[2], 0);

    let mut dest2 = [b'x' as wchar_t; 5];
    wcsncpy(&mut dest2, &src, 4);
    assert_eq!(dest2[0], b'a' as wchar_t);
    assert_eq!(dest2[1], b'b' as wchar_t);
    assert_eq!(dest2[2], 0);
    assert_eq!(dest2[3], 0);
}

#[test]
fn test_wcscat_wcsncat() {
    let mut dest = [b'h' as wchar_t, b'i' as wchar_t, 0, 0, 0];
    let src = [b'!' as wchar_t, 0];
    wcscat(&mut dest, &src);
    assert_eq!(dest[0], b'h' as wchar_t);
    assert_eq!(dest[1], b'i' as wchar_t);
    assert_eq!(dest[2], b'!' as wchar_t);
    assert_eq!(dest[3], 0);

    let mut dest2 = [b'a' as wchar_t, 0, 0, 0, 0];
    let src2 = [b'b' as wchar_t, b'c' as wchar_t, 0];
    wcsncat(&mut dest2, &src2, 1);
    assert_eq!(dest2[0], b'a' as wchar_t);
    assert_eq!(dest2[1], b'b' as wchar_t);
    assert_eq!(dest2[2], 0);
}

#[test]
fn test_wcscmp_wcsncmp() {
    let a = [b'a' as wchar_t, 0];
    let b = [b'b' as wchar_t, 0];
    assert!(wcscmp(&a, &b) < 0);
    assert!(wcscmp(&b, &a) > 0);
    assert_eq!(wcsncmp(&a, &b, 0), 0);
    assert!(wcsncmp(&a, &b, 1) < 0);
}

#[test]
fn test_wcschr_wcsrchr_wcsstr() {
    let s = [b'a' as wchar_t, b'b' as wchar_t, b'a' as wchar_t, 0];
    assert_eq!(wcschr(&s, b'a' as wchar_t), Some(0));
    assert_eq!(wcsrchr(&s, b'a' as wchar_t), Some(2));

    let hay = [b'a' as wchar_t, b'b' as wchar_t, b'c' as wchar_t, 0];
    let needle = [b'b' as wchar_t, b'c' as wchar_t, 0];
    assert_eq!(wcsstr(&hay, &needle), Some(1));
}

#[test]
fn test_wcsspn_wcscspn_wcspbrk() {
    let s = [b'a' as wchar_t, b'b' as wchar_t, b'c' as wchar_t, 0];
    let accept = [b'a' as wchar_t, b'b' as wchar_t, 0];
    let reject = [b'c' as wchar_t, 0];
    assert_eq!(wcsspn(&s, &accept), 2);
    assert_eq!(wcscspn(&s, &reject), 2);
    assert_eq!(wcspbrk(&s, &accept), Some(0));
}

#[test]
fn test_wcscasecmp_wcsncasecmp() {
    let s1 = [b'A' as wchar_t, b'b' as wchar_t, 0];
    let s2 = [b'a' as wchar_t, b'B' as wchar_t, 0];
    assert_eq!(wcscasecmp(&s1, &s2), 0);
    assert_eq!(wcsncasecmp(&s1, &s2, 1), 0);
    assert_eq!(wcsncasecmp(&s1, &s2, 2), 0);
}

#[test]
fn test_wcpcpy_wcpncpy() {
    let src = [b'h' as wchar_t, b'i' as wchar_t, 0];
    let mut dest = [0 as wchar_t; 4];
    let end = wcpcpy(&mut dest, &src);
    assert_eq!(end, 2);
    assert_eq!(dest[..3], [b'h' as wchar_t, b'i' as wchar_t, 0]);

    let mut dest2 = [b'x' as wchar_t; 4];
    let end2 = wcpncpy(&mut dest2, &src, 2);
    assert_eq!(end2, 2);
    assert_eq!(dest2[..2], [b'h' as wchar_t, b'i' as wchar_t]);

    let mut dest3 = [b'x' as wchar_t; 4];
    let end3 = wcpncpy(&mut dest3, &src, 3);
    assert_eq!(end3, 2);
    assert_eq!(dest3[..3], [b'h' as wchar_t, b'i' as wchar_t, 0]);
}

#[test]
fn test_wcschrnul() {
    let s = [b'a' as wchar_t, b'b' as wchar_t, 0];
    assert_eq!(wcschrnul(&s, b'a' as wchar_t), 0);
    assert_eq!(wcschrnul(&s, b'b' as wchar_t), 1);
    assert_eq!(wcschrnul(&s, b'c' as wchar_t), 2);
    assert_eq!(wcschrnul(&s, 0), 2);
}

#[test]
fn test_wcslcpy_wcslcat() {
    let src = [b'h' as wchar_t, b'i' as wchar_t, 0];
    let mut dest = [0 as wchar_t; 3];
    let len = wcslcpy(&mut dest, &src);
    assert_eq!(len, 2);
    assert_eq!(dest, [b'h' as wchar_t, b'i' as wchar_t, 0]);

    let mut dest2 = [b'a' as wchar_t, 0, 0, 0];
    let src2 = [b'b' as wchar_t, b'c' as wchar_t, 0];
    let total = wcslcat(&mut dest2, &src2);
    assert_eq!(total, 3);
    assert_eq!(dest2[..3], [b'a' as wchar_t, b'b' as wchar_t, b'c' as wchar_t]);
}

#[test]
fn test_wcsdup_basic() {
    let src = [b'a' as wchar_t, b'b' as wchar_t, 0];
    assert_eq!(wcsdup(&src), src);
}

#[test]
fn test_wcsdup_adds_terminator_when_missing() {
    let src = [b'a' as wchar_t, b'b' as wchar_t];
    assert_eq!(wcsdup(&src), vec![b'a' as wchar_t, b'b' as wchar_t, 0]);
}

#[test]
fn test_wcstok_sequence() {
    let s = [
        b'a' as wchar_t,
        b',' as wchar_t,
        b'b' as wchar_t,
        b',' as wchar_t,
        b'c' as wchar_t,
        0,
    ];
    let delim = [b',' as wchar_t, 0];
    let mut save = 0usize;

    assert_eq!(wcstok(&s, &delim, &mut save), Some(&[b'a' as wchar_t][..]));
    assert_eq!(wcstok(&s, &delim, &mut save), Some(&[b'b' as wchar_t][..]));
    assert_eq!(wcstok(&s, &delim, &mut save), Some(&[b'c' as wchar_t][..]));
    assert_eq!(wcstok(&s, &delim, &mut save), None);
}

#[test]
fn test_wcsxfrm_copy_and_len() {
    let mut dest = [0 as wchar_t; 8];
    let src = [b'a' as wchar_t, b'b' as wchar_t, 0];
    let n = wcsxfrm(&mut dest, &src);
    assert_eq!(n, 2);
    assert_eq!(&dest[..3], &[b'a' as wchar_t, b'b' as wchar_t, 0]);
}

#[test]
fn test_wcsxfrm_truncation() {
    let mut dest = [0 as wchar_t; 2];
    let src = [b'h' as wchar_t, b'i' as wchar_t, b'!' as wchar_t, 0];
    let n = wcsxfrm(&mut dest, &src);
    assert_eq!(n, 3);
    assert_eq!(&dest, &[b'h' as wchar_t, 0]);
}
