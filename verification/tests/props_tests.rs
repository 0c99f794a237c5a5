use faststrings::mem::{memchr, memcmp, memcpy, memmove_within, memrchr, memset};

fn pattern(len: usize, seed: usize) -> Vec<u8> {
    (0..len).map(|i| ((i * 31 + seed * 17 + 7) % 251) as u8).collect()
}

fn reference_move(buf: &[u8], dest: usize, src: usize, n: usize) -> Vec<u8> {
    let mut out = buf.to_vec();
    let tmp = buf[src..src + n].to_vec();
    out[dest..dest + n].copy_from_slice(&tmp);
    out
}

const TIER_SIZES: [usize; 22] = [
    0, 1, 2, 3, 7, 8, 15, 16, 31, 32, 63, 64, 65, 127, 128, 129, 255, 256, 257, 511, 512, 1024,
];

#[test]
fn prop_copy_round_trip() {
    for n in 0..=1024usize {
        let src = pattern(n, n);
        let mut dest = vec![0xEEu8; n + 8];
        let copied = memcpy(&mut dest[..n], &src);
        assert_eq!(copied, n);
        assert_eq!(&dest[..n], &src[..]);
        assert!(dest[n..].iter().all(|&b| b == 0xEE));
    }
}

#[test]
fn prop_move_overlap_equivalence_offsets() {
    for src_off in 0..32usize {
        for dst_off in 0..32usize {
            for &n in TIER_SIZES.iter() {
                let len = 32 + n + 32;
                let buf = pattern(len, src_off * 33 + dst_off);
                let expected = reference_move(&buf, dst_off, src_off, n);
                let mut actual = buf.clone();
                memmove_within(&mut actual, dst_off, src_off, n);
                assert_eq!(actual, expected);
            }
        }
    }
}

#[test]
fn prop_move_overlap_equivalence_sizes() {
    for n in 0..=1024usize {
        for &(dst_off, src_off) in [(0usize, 5usize), (5, 0), (3, 3), (1, 2)].iter() {
            let len = 8 + n + 8;
            let buf = pattern(len, n);
            let expected = reference_move(&buf, dst_off, src_off, n);
            let mut actual = buf.clone();
            memmove_within(&mut actual, dst_off, src_off, n);
            assert_eq!(actual, expected);
        }
    }
}

#[test]
fn prop_alignment_invariance() {
    let base = pattern(1200, 3);
    for off in 0..32usize {
        for &n in TIER_SIZES.iter() {
            let window = &base[off..off + n];

            let mut dest = vec![0u8; n];
            memcpy(&mut dest, window);
            assert_eq!(&dest[..], window);

            let mut shifted = vec![0u8; n];
            shifted.copy_from_slice(window);
            assert_eq!(memcmp(window, &shifted), 0);

            assert_eq!(memchr(window, 0xFE), memchr(&shifted, 0xFE));
            assert_eq!(memrchr(window, 0xFE), memrchr(&shifted, 0xFE));
            if n > 0 {
                let needle = window[n / 2];
                assert_eq!(memchr(window, needle), memchr(&shifted, needle));
                assert_eq!(memrchr(window, needle), memrchr(&shifted, needle));
            }
        }
    }
}

#[test]
fn prop_compare_sign_correctness() {
    let cases: Vec<(Vec<u8>, Vec<u8>)> = vec![
        (b"abc".to_vec(), b"abd".to_vec()),
        (b"abc".to_vec(), b"abc".to_vec()),
        (b"abe".to_vec(), b"abd".to_vec()),
        (b"".to_vec(), b"a".to_vec()),
        (b"ab".to_vec(), b"abc".to_vec()),
        (pattern(300, 1), pattern(300, 2)),
        (pattern(512, 9), pattern(513, 9)),
    ];
    for (a, b) in cases.iter() {
        let ab = memcmp(a, b);
        let ba = memcmp(b, a);
        assert_eq!(ab.signum(), -ba.signum());
        assert_eq!(memcmp(a, a), 0);
        assert_eq!(memcmp(b, b), 0);
    }
}

#[test]
fn prop_scan_correctness() {
    for n in 1..=1024usize {
        let buf = pattern(n, n).iter().map(|&b| if b == 0xFD { 1 } else { b }).collect::<Vec<u8>>();
        let positions = [0usize, n / 2, n - 1];
        for &p in positions.iter() {
            let mut planted = buf.clone();
            planted[p] = 0xFD;
            assert_eq!(memchr(&planted, 0xFD), Some(p));
            assert_eq!(memrchr(&planted, 0xFD), Some(p));
        }
        assert_eq!(memchr(&buf, 0xFD), None);
        assert_eq!(memrchr(&buf, 0xFD), None);
    }
}

#[test]
fn prop_concrete_scenarios() {
    let mut dest = [0u8; 5];
    assert_eq!(memcpy(&mut dest, &[1, 2, 3, 4, 5]), 5);
    assert_eq!(dest, [1, 2, 3, 4, 5]);

    let mut buf = *b"abcdef";
    memmove_within(&mut buf, 2, 0, 4);
    assert_eq!(&buf, b"ababcd");

    assert!(memcmp(b"abc", b"abd") < 0);
    assert_eq!(memcmp(b"abc", b"abc"), 0);
    assert!(memcmp(b"abe", b"abd") > 0);

    assert_eq!(memchr(b"hello", b'l'), Some(2));
    assert_eq!(memrchr(b"hello", b'l'), Some(3));
    assert_eq!(memchr(b"hello", b'x'), None);

    let mut fill_dest = [0u8; 5];
    assert_eq!(memset(&mut fill_dest, b'x'), 5);
    assert_eq!(&fill_dest, b"xxxxx");
}
