use faststrings::bits::{ffs, first_set_bit, has_zero_byte_u64, last_set_bit};

#[test]
fn test_ffs_basic() {
    assert_eq!(ffs(0), 0);
    assert_eq!(ffs(1), 1);
    assert_eq!(ffs(2), 2);
    assert_eq!(ffs(12), 3);
}

#[test]
fn test_ffs_negative() {
    assert_eq!(ffs(-1), 1);
    assert_eq!(ffs(i32::MIN), 32);
}

#[test]
fn test_set_bit_helpers() {
    assert_eq!(first_set_bit(0b1000), 3);
    assert_eq!(first_set_bit(1), 0);
    assert_eq!(first_set_bit(i32::MIN), 31);
    assert_eq!(last_set_bit(0b1000), 3);
    assert_eq!(last_set_bit(0b1010), 3);
    assert_eq!(last_set_bit(1), 0);
    assert_eq!(last_set_bit(-1), 31);
}

#[test]
fn test_has_zero_byte_u64() {
    assert!(has_zero_byte_u64(0));
    assert!(has_zero_byte_u64(0x1122_3344_5566_7700));
    assert!(has_zero_byte_u64(0x0011_2233_4455_6677));
    assert!(has_zero_byte_u64(0x1122_0044_5566_7788));
    assert!(!has_zero_byte_u64(0x1122_3344_5566_7788));
    assert!(!has_zero_byte_u64(u64::MAX));
    assert!(!has_zero_byte_u64(0x0101_0101_0101_0101));
}
