//! Byte memory engines: copy, overlap-aware move, fill, comparison and scan
//! over byte spans.
//!
//! Each engine's contract pins its result to the naive reference semantics,
//! so any implementation strategy must be observably identical to copying,
//! filling, comparing or scanning one byte at a time.

use vstd::prelude::*;

use crate::copying::{copy_elems, fill_elems};
use crate::specs::{
    compare_bytes, lemma_compare_bytes_first_diff, lemma_compare_bytes_prefix_equal,
    lemma_term_len_is_first, match_at, term_len,
};

verus! {

broadcast use vstd::slice::group_slice_axioms;

/// Copy bytes from `src` to `dest`; the two borrows are necessarily
/// disjoint. Copies `min(dest.len(), src.len())` bytes and returns that
/// count. Bytes of `dest` beyond the copied prefix keep their old value.
pub fn memcpy(dest: &mut [u8], src: &[u8]) -> (n: usize)
    ensures
        n == vstd::math::min(old(dest)@.len() as int, src@.len() as int),
        final(dest)@.len() == old(dest)@.len(),
        forall|i: int| 0 <= i < n ==> final(dest)@[i] == src@[i],
        forall|i: int| n <= i < old(dest)@.len() ==> final(dest)@[i] == old(dest)@[i],
{
    let n: usize = if dest.len() <= src.len() {
        dest.len()
    } else {
        src.len()
    };
    copy_elems(dest, 0, src, 0, n);
    n
}

/// Copy bytes from `src` to `dest` with overlap-safe semantics. Distinct
/// slices cannot overlap, so this delegates to the copy engine; the
/// overlap-aware algorithm lives in [`memmove_within`].
pub fn memmove(dest: &mut [u8], src: &[u8]) -> (n: usize)
    ensures
        n == vstd::math::min(old(dest)@.len() as int, src@.len() as int),
        final(dest)@.len() == old(dest)@.len(),
        forall|i: int| 0 <= i < n ==> final(dest)@[i] == src@[i],
        forall|i: int| n <= i < old(dest)@.len() ==> final(dest)@[i] == old(dest)@[i],
{
    memcpy(dest, src)
}

/// The overlap-aware move engine: transfer `n` bytes inside one buffer,
/// from `buf[src..src + n]` to `buf[dest..dest + n]`, with the result a
/// caller would get by copying through a temporary buffer.
///
/// When the destination starts below the source the transfer runs
/// low-to-high: each write lands strictly below every byte still to be
/// read. When it starts above, the transfer runs high-to-low by the
/// symmetric argument.
pub fn memmove_within(buf: &mut [u8], dest: usize, src: usize, n: usize)
    requires
        dest + n <= old(buf)@.len(),
        src + n <= old(buf)@.len(),
    ensures
        final(buf)@ == crate::specs::seq_move(old(buf)@, dest as int, src as int, n as int),
        final(buf)@.len() == old(buf)@.len(),
        forall|i: int| dest <= i < dest + n ==> final(buf)@[i] == old(buf)@[src + (i - dest)],
        forall|i: int|
            0 <= i < old(buf)@.len() && !(dest <= i < dest + n) ==> final(buf)@[i] == old(
                buf,
            )@[i],
{
    proof {
        vstd::slice::axiom_spec_len(buf);
    }
    if dest <= src {
        let mut k: usize = 0;
        while k < n
            invariant
                0 <= k <= n,
                dest <= src,
                dest + n <= buf@.len() <= usize::MAX,
                src + n <= buf@.len(),
                buf@.len() == old(buf)@.len(),
                forall|i: int| dest <= i < dest + k ==> buf@[i] == old(buf)@[src + (i - dest)],
                forall|i: int|
                    0 <= i < buf@.len() && !(dest <= i < dest + k) ==> buf@[i] == old(buf)@[i],
            decreases n - k,
        {
            let v: u8 = buf[src + k];
            assert(buf@[src + k] == old(buf)@[src + k]);
            buf[dest + k] = v;
            k = k + 1;
        }
    } else {
        let mut k: usize = n;
        while k > 0
            invariant
                0 <= k <= n,
                dest > src,
                dest + n <= buf@.len() <= usize::MAX,
                src + n <= buf@.len(),
                buf@.len() == old(buf)@.len(),
                forall|i: int| dest + k <= i < dest + n ==> buf@[i] == old(buf)@[src + (i - dest)],
                forall|i: int|
                    0 <= i < buf@.len() && !(dest + k <= i < dest + n) ==> buf@[i] == old(
                        buf,
                    )@[i],
            decreases k,
        {
            k = k - 1;
            let v: u8 = buf[src + k];
            assert(buf@[src + k] == old(buf)@[src + k]);
            buf[dest + k] = v;
        }
    }
    proof {
        assert(buf@ =~= crate::specs::seq_move(old(buf)@, dest as int, src as int, n as int));
    }
}

/// The fill engine: set every byte of `dest` to `c` and return the count
/// of bytes set.
pub fn memset(dest: &mut [u8], c: u8) -> (n: usize)
    ensures
        n == old(dest)@.len(),
        final(dest)@.len() == old(dest)@.len(),
        forall|i: int| 0 <= i < final(dest)@.len() ==> final(dest)@[i] == c,
{
    let n: usize = dest.len();
    fill_elems(dest, 0, n, c);
    n
}

/// The comparison engine: lexicographic comparison of two byte spans.
/// Returns the signed difference of the first differing pair; when one
/// span is a prefix of the other, the shorter is less (`-1`/`1`); equal
/// spans compare as `0`.
pub fn memcmp(s1: &[u8], s2: &[u8]) -> (r: i32)
    ensures
        r as int == compare_bytes(s1@, s2@),
{
    let n: usize = if s1.len() <= s2.len() {
        s1.len()
    } else {
        s2.len()
    };
    let mut i: usize = 0;
    while i < n
        invariant
            0 <= i <= n,
            n == vstd::math::min(s1@.len() as int, s2@.len() as int),
            forall|j: int| 0 <= j < i ==> s1@[j] == s2@[j],
        decreases n - i,
    {
        if s1[i] != s2[i] {
            proof {
                lemma_compare_bytes_first_diff(s1@, s2@, i as int);
            }
            return (s1[i] as i32) - (s2[i] as i32);
        }
        i = i + 1;
    }
    proof {
        lemma_compare_bytes_prefix_equal(s1@, s2@);
    }
    if s1.len() < s2.len() {
        -1
    } else if s1.len() == s2.len() {
        0
    } else {
        1
    }
}

/// Compare at most `n` bytes of the two spans, without the length
/// tie-break: when the compared windows are equal the result is `0`, even
/// if one span continues past the window.
pub fn memcmp_n(s1: &[u8], s2: &[u8], n: usize) -> (r: i32)
    ensures
        ({
            let w = vstd::math::min(
                vstd::math::min(s1@.len() as int, s2@.len() as int),
                n as int,
            );
            r as int == compare_bytes(s1@.take(w), s2@.take(w))
        }),
{
    let len: usize = {
        let m: usize = if s1.len() <= s2.len() {
            s1.len()
        } else {
            s2.len()
        };
        if m <= n {
            m
        } else {
            n
        }
    };
    let ghost w = len as int;
    let mut i: usize = 0;
    while i < len
        invariant
            0 <= i <= len,
            len <= s1@.len(),
            len <= s2@.len(),
            w == len as int,
            len == vstd::math::min(vstd::math::min(s1@.len() as int, s2@.len() as int), n as int),
            forall|j: int| 0 <= j < i ==> s1@[j] == s2@[j],
        decreases len - i,
    {
        if s1[i] != s2[i] {
            proof {
                assert forall|j: int| 0 <= j < i implies s1@.take(w)[j] == s2@.take(w)[j] by {
                    assert(s1@.take(w)[j] == s1@[j]);
                    assert(s2@.take(w)[j] == s2@[j]);
                }
                assert(s1@.take(w)[i as int] == s1@[i as int]);
                assert(s2@.take(w)[i as int] == s2@[i as int]);
                lemma_compare_bytes_first_diff(s1@.take(w), s2@.take(w), i as int);
            }
            return (s1[i] as i32) - (s2[i] as i32);
        }
        i = i + 1;
    }
    proof {
        assert(s1@.take(w).len() == s2@.take(w).len());
        assert forall|j: int|
            0 <= j < vstd::math::min(
                s1@.take(w).len() as int,
                s2@.take(w).len() as int,
            ) implies s1@.take(w)[j] == s2@.take(w)[j] by {
            assert(s1@.take(w)[j] == s1@[j]);
            assert(s2@.take(w)[j] == s2@[j]);
        }
        lemma_compare_bytes_prefix_equal(s1@.take(w), s2@.take(w));
    }
    0
}

/// The forward scan engine: index of the first occurrence of `c` in `s`,
/// or `None` when `c` does not occur.
pub fn memchr(s: &[u8], c: u8) -> (r: Option<usize>)
    ensures
        match r {
            Some(i) => i < s@.len() && s@[i as int] == c && forall|j: int|
                0 <= j < i ==> s@[j] != c,
            None => forall|j: int| 0 <= j < s@.len() ==> s@[j] != c,
        },
{
    let n: usize = s.len();
    let mut i: usize = 0;
    while i < n
        invariant
            0 <= i <= n,
            n == s@.len(),
            forall|j: int| 0 <= j < i ==> s@[j] != c,
        decreases n - i,
    {
        if s[i] == c {
            return Some(i);
        }
        i = i + 1;
    }
    None
}

/// The backward scan engine: index of the last occurrence of `c` in `s`,
/// or `None` when `c` does not occur.
pub fn memrchr(s: &[u8], c: u8) -> (r: Option<usize>)
    ensures
        match r {
            Some(i) => i < s@.len() && s@[i as int] == c && forall|j: int|
                i < j < s@.len() ==> s@[j] != c,
            None => forall|j: int| 0 <= j < s@.len() ==> s@[j] != c,
        },
{
    let mut i: usize = s.len();
    while i > 0
        invariant
            0 <= i <= s@.len(),
            forall|j: int| i <= j < s@.len() ==> s@[j] != c,
        decreases i,
    {
        i = i - 1;
        if s[i] == c {
            return Some(i);
        }
    }
    None
}

/// Copy bytes from `src` to `dest` until `c` has been copied or
/// `min(dest.len(), src.len())` bytes are exhausted. Returns the index one
/// past the copied `c` when `c` was found, `None` otherwise.
pub fn memccpy(dest: &mut [u8], src: &[u8], c: u8) -> (r: Option<usize>)
    ensures
        final(dest)@.len() == old(dest)@.len(),
        ({
            let n = vstd::math::min(old(dest)@.len() as int, src@.len() as int);
            let t = term_len(src@.take(n), c);
            let k = if t < n {
                t + 1
            } else {
                n
            };
            &&& (match r {
                Some(p) => t < n && p == t + 1,
                None => t == n,
            })
            &&& forall|i: int| 0 <= i < k ==> final(dest)@[i] == src@[i]
            &&& forall|i: int| k <= i < old(dest)@.len() ==> final(dest)@[i] == old(dest)@[i]
        }),
{
    let n: usize = if dest.len() <= src.len() {
        dest.len()
    } else {
        src.len()
    };
    let ghost nn = n as int;
    if n == 0 {
        proof {
            assert(src@.take(0) =~= Seq::<u8>::empty());
        }
        return None;
    }
    let window = vstd::slice::slice_subrange(src, 0, n);
    proof {
        assert(window@ =~= src@.take(nn));
    }
    let stop = memchr(window, c);
    match stop {
        Some(idx) => {
            proof {
                lemma_term_len_is_first(src@.take(nn), c, idx as int);
            }
            copy_elems(dest, 0, src, 0, idx + 1);
            Some(idx + 1)
        },
        None => {
            proof {
                lemma_term_len_is_first(src@.take(nn), c, nn);
            }
            copy_elems(dest, 0, src, 0, n);
            None
        },
    }
}

/// `needle` matches `haystack` at position `i`.
fn eq_at(haystack: &[u8], needle: &[u8], i: usize) -> (r: bool)
    requires
        i + needle@.len() <= haystack@.len(),
    ensures
        r == match_at(haystack@, needle@, i as int),
{
    proof {
        vstd::slice::axiom_spec_len(haystack);
    }
    let m: usize = needle.len();
    let mut j: usize = 0;
    while j < m
        invariant
            0 <= j <= m,
            m == needle@.len(),
            i + m <= haystack@.len() <= usize::MAX,
            forall|k: int| 0 <= k < j ==> haystack@[i + k] == needle@[k],
        decreases m - j,
    {
        if haystack[i + j] != needle[j] {
            proof {
                let sub = haystack@.subrange(i as int, i + m);
                assert(sub[j as int] == haystack@[i + j]);
            }
            return false;
        }
        j = j + 1;
    }
    proof {
        assert(haystack@.subrange(i as int, i + m) =~= needle@);
    }
    true
}

/// The substring search engine: index of the first occurrence of `needle`
/// in `haystack`. The empty needle matches at 0; a needle longer than the
/// haystack never matches.
pub fn memmem(haystack: &[u8], needle: &[u8]) -> (r: Option<usize>)
    ensures
        match r {
            Some(i) => match_at(haystack@, needle@, i as int) && forall|j: int|
                0 <= j < i ==> !match_at(haystack@, needle@, j),
            None => forall|j: int| !match_at(haystack@, needle@, j),
        },
{
    if needle.len() == 0 {
        proof {
            assert(haystack@.subrange(0, 0) =~= needle@);
        }
        return Some(0);
    }
    if needle.len() > haystack.len() {
        return None;
    }
    let max_start: usize = haystack.len() - needle.len();
    let mut i: usize = 0;
    while i <= max_start
        invariant
            0 <= i <= max_start + 1,
            max_start == haystack@.len() - needle@.len(),
            needle@.len() >= 1,
            needle@.len() <= haystack@.len() <= usize::MAX,
            forall|j: int| 0 <= j < i ==> !match_at(haystack@, needle@, j),
        decreases max_start + 1 - i,
    {
        if eq_at(haystack, needle, i) {
            return Some(i);
        }
        i = i + 1;
    }
    None
}

/// Zero every byte of `s`; callers use it to clear buffers that held
/// sensitive data.
pub fn explicit_bzero(s: &mut [u8])
    ensures
        final(s)@.len() == old(s)@.len(),
        forall|i: int| 0 <= i < final(s)@.len() ==> final(s)@[i] == 0,
{
    let n: usize = s.len();
    fill_elems(s, 0, n, 0);
}

/// Zero every byte of `s`.
pub fn bzero(s: &mut [u8])
    ensures
        final(s)@.len() == old(s)@.len(),
        forall|i: int| 0 <= i < final(s)@.len() ==> final(s)@[i] == 0,
{
    let n: usize = s.len();
    fill_elems(s, 0, n, 0);
}

/// Compare byte spans; equivalent to [`memcmp`].
pub fn bcmp(s1: &[u8], s2: &[u8]) -> (r: i32)
    ensures
        r as int == compare_bytes(s1@, s2@),
{
    memcmp(s1, s2)
}

/// Copy `min(src.len(), dest.len())` bytes from `src` to `dest` and return
/// the count; the argument order follows the historical calling
/// convention, source first.
pub fn bcopy(src: &[u8], dest: &mut [u8]) -> (n: usize)
    ensures
        n == vstd::math::min(src@.len() as int, old(dest)@.len() as int),
        final(dest)@.len() == old(dest)@.len(),
        forall|i: int| 0 <= i < n ==> final(dest)@[i] == src@[i],
        forall|i: int| n <= i < old(dest)@.len() ==> final(dest)@[i] == old(dest)@[i],
{
    let n: usize = if src.len() <= dest.len() {
        src.len()
    } else {
        dest.len()
    };
    copy_elems(dest, 0, src, 0, n);
    n
}

} // verus!
