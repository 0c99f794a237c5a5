use faststrings::types::wchar_t;
use faststrings::wmem::{
    wmemchr, wmemcmp, wmemcpy, wmemmove_within, wmempcpy, wmemrchr, wmemset,
};

#[test]
fn test_wmempcpy_basic() {
    let src = [1 as wchar_t, 2, 3];
    let mut dest = [0 as wchar_t; 4];
    let end = wmempcpy(&mut dest[..3], &src);
    assert_eq!(end, 3);
    assert_eq!(dest[..3], src);
}

#[test]
fn test_wmemmove_within_overlap_forward() {
    let mut buf = [1 as wchar_t, 2, 3, 4, 5];
    wmemmove_within(&mut buf, 1, 0, 4);
    assert_eq!(buf, [1, 1, 2, 3, 4]);
}

#[test]
fn test_wmemmove_within_overlap_backward() {
    let mut buf = [1 as wchar_t, 2, 3, 4, 5];
    wmemmove_within(&mut buf, 0, 1, 4);
    assert_eq!(buf, [2, 3, 4, 5, 5]);
}

#[test]
fn test_wmem_basic_ops() {
    let mut dest = [0 as wchar_t; 3];
    assert_eq!(wmemcpy(&mut dest, &[7 as wchar_t, 8, 9]), 3);
    assert_eq!(dest, [7, 8, 9]);

    assert_eq!(wmemset(&mut dest, 5), 3);
    assert_eq!(dest, [5, 5, 5]);

    assert!(wmemcmp(&[1 as wchar_t, 2], &[1 as wchar_t, 3]) < 0);
    assert!(wmemcmp(&[-1 as wchar_t], &[1 as wchar_t]) < 0);
    assert_eq!(wmemcmp(&[1 as wchar_t, 2], &[1 as wchar_t, 2]), 0);

    assert_eq!(wmemchr(&[4 as wchar_t, 5, 4], 4), Some(0));
    assert_eq!(wmemrchr(&[4 as wchar_t, 5, 4], 4), Some(2));
    assert_eq!(wmemchr(&[4 as wchar_t, 5, 4], 9), None);
}
