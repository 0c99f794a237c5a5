use faststrings::errors::{strerror, strerror_r, unknown_error_message, EINVAL, ERANGE};

#[test]
fn test_strerror_known_values() {
    assert_eq!(strerror(0), b"Success\0");
    assert_eq!(strerror(2), b"No such file or directory\0");
    assert_eq!(strerror(22), b"Invalid argument\0");
    assert_eq!(strerror(110), b"Connection timed out\0");
}

#[test]
fn test_strerror_unknown_value() {
    assert_eq!(strerror(10_000), unknown_error_message());
    assert_eq!(strerror(-1), unknown_error_message());
}

#[test]
fn test_strerror_r_success() {
    let mut buf = [0u8; 64];
    let rc = strerror_r(22, &mut buf);
    assert_eq!(rc, 0);
    assert_eq!(&buf[..17], b"Invalid argument\0");
}

#[test]
fn test_strerror_r_unknown_sets_einval() {
    let mut buf = [0u8; 32];
    let rc = strerror_r(99_999, &mut buf);
    assert_eq!(rc, EINVAL);
    assert_eq!(&buf[..14], b"Unknown error\0");
}

#[test]
fn test_strerror_r_truncates_with_erange() {
    let mut buf = [0xAAu8; 8];
    let rc = strerror_r(2, &mut buf);
    assert_eq!(rc, ERANGE);
    assert_eq!(&buf, b"No such\0");
}

#[test]
fn test_strerror_r_empty_buffer() {
    let mut buf = [];
    let rc = strerror_r(2, &mut buf);
    assert_eq!(rc, ERANGE);
}

#[test]
fn test_strerror_boundary_numbers() {
    assert_eq!(strerror(40), b"Too many levels of symbolic links\0");
    assert_eq!(strerror(41), unknown_error_message());
    assert_eq!(strerror(58), unknown_error_message());
    assert_eq!(strerror(133), b"Memory page has hardware error\0");
    assert_eq!(strerror(134), unknown_error_message());
}
