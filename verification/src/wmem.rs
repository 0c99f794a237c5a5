//! Wide memory engines: the byte engines' contracts mirrored over a wider
//! unit.

use vstd::prelude::*;

use crate::copying::{copy_elems, fill_elems};
use crate::specs::{compare_wide, lemma_compare_wide_first_diff, lemma_compare_wide_prefix_equal};
use crate::types::wchar_t;

verus! {

broadcast use vstd::slice::group_slice_axioms;

/// Copy `min(dest.len(), src.len())` wide characters from `src` to `dest`
/// and return the count.
pub fn wmemcpy(dest: &mut [wchar_t], src: &[wchar_t]) -> (n: usize)
    ensures
        n == vstd::math::min(old(dest)@.len() as int, src@.len() as int),
        final(dest)@.len() == old(dest)@.len(),
        forall|i: int| 0 <= i < n ==> final(dest)@[i] == src@[i],
        forall|i: int| n <= i < old(dest)@.len() ==> final(dest)@[i] == old(dest)@[i],
{
    let n: usize = if dest.len() <= src.len() {
        dest.len()
    } else {
        src.len()
    };
    copy_elems(dest, 0, src, 0, n);
    n
}

/// Copy like [`wmemcpy`] and return the index one past the last element
/// copied.
pub fn wmempcpy(dest: &mut [wchar_t], src: &[wchar_t]) -> (n: usize)
    ensures
        n == vstd::math::min(old(dest)@.len() as int, src@.len() as int),
        final(dest)@.len() == old(dest)@.len(),
        forall|i: int| 0 <= i < n ==> final(dest)@[i] == src@[i],
        forall|i: int| n <= i < old(dest)@.len() ==> final(dest)@[i] == old(dest)@[i],
{
    wmemcpy(dest, src)
}

/// Copy wide characters with overlap-safe semantics; distinct slices never
/// overlap, so this is [`wmemcpy`].
pub fn wmemmove(dest: &mut [wchar_t], src: &[wchar_t]) -> (n: usize)
    ensures
        n == vstd::math::min(old(dest)@.len() as int, src@.len() as int),
        final(dest)@.len() == old(dest)@.len(),
        forall|i: int| 0 <= i < n ==> final(dest)@[i] == src@[i],
        forall|i: int| n <= i < old(dest)@.len() ==> final(dest)@[i] == old(dest)@[i],
{
    wmemcpy(dest, src)
}

/// The overlap-aware move engine over wide characters: transfer `n` units
/// inside one buffer with copy-through-a-temporary semantics.
pub fn wmemmove_within(buf: &mut [wchar_t], dest: usize, src: usize, n: usize)
    requires
        dest + n <= old(buf)@.len(),
        src + n <= old(buf)@.len(),
    ensures
        final(buf)@ == crate::specs::seq_move(old(buf)@, dest as int, src as int, n as int),
        final(buf)@.len() == old(buf)@.len(),
        forall|i: int| dest <= i < dest + n ==> final(buf)@[i] == old(buf)@[src + (i - dest)],
        forall|i: int|
            0 <= i < old(buf)@.len() && !(dest <= i < dest + n) ==> final(buf)@[i] == old(
                buf,
            )@[i],
{
    proof {
        vstd::slice::axiom_spec_len(buf);
    }
    if dest <= src {
        let mut k: usize = 0;
        while k < n
            invariant
                0 <= k <= n,
                dest <= src,
                dest + n <= buf@.len() <= usize::MAX,
                src + n <= buf@.len(),
                buf@.len() == old(buf)@.len(),
                forall|i: int| dest <= i < dest + k ==> buf@[i] == old(buf)@[src + (i - dest)],
                forall|i: int|
                    0 <= i < buf@.len() && !(dest <= i < dest + k) ==> buf@[i] == old(buf)@[i],
            decreases n - k,
        {
            let v: wchar_t = buf[src + k];
            assert(buf@[src + k] == old(buf)@[src + k]);
            buf[dest + k] = v;
            k = k + 1;
        }
    } else {
        let mut k: usize = n;
        while k > 0
            invariant
                0 <= k <= n,
                dest > src,
                dest + n <= buf@.len() <= usize::MAX,
                src + n <= buf@.len(),
                buf@.len() == old(buf)@.len(),
                forall|i: int| dest + k <= i < dest + n ==> buf@[i] == old(buf)@[src + (i - dest)],
                forall|i: int|
                    0 <= i < buf@.len() && !(dest + k <= i < dest + n) ==> buf@[i] == old(
                        buf,
                    )@[i],
            decreases k,
        {
            k = k - 1;
            let v: wchar_t = buf[src + k];
            assert(buf@[src + k] == old(buf)@[src + k]);
            buf[dest + k] = v;
        }
    }
    proof {
        assert(buf@ =~= crate::specs::seq_move(old(buf)@, dest as int, src as int, n as int));
    }
}

/// Set every wide character of `dest` to `c` and return the count.
pub fn wmemset(dest: &mut [wchar_t], c: wchar_t) -> (n: usize)
    ensures
        n == old(dest)@.len(),
        final(dest)@.len() == old(dest)@.len(),
        forall|i: int| 0 <= i < final(dest)@.len() ==> final(dest)@[i] == c,
{
    let n: usize = dest.len();
    fill_elems(dest, 0, n, c);
    n
}

/// Lexicographic comparison of wide spans; the result is a sign (`-1`,
/// `0`, `1`), with shorter-is-less when one span is a prefix of the other.
pub fn wmemcmp(s1: &[wchar_t], s2: &[wchar_t]) -> (r: i32)
    ensures
        r as int == compare_wide(s1@, s2@),
{
    let n: usize = if s1.len() <= s2.len() {
        s1.len()
    } else {
        s2.len()
    };
    let mut i: usize = 0;
    while i < n
        invariant
            0 <= i <= n,
            n == vstd::math::min(s1@.len() as int, s2@.len() as int),
            forall|j: int| 0 <= j < i ==> s1@[j] == s2@[j],
        decreases n - i,
    {
        if s1[i] != s2[i] {
            proof {
                lemma_compare_wide_first_diff(s1@, s2@, i as int);
            }
            return if s1[i] < s2[i] {
                -1
            } else {
                1
            };
        }
        i = i + 1;
    }
    proof {
        lemma_compare_wide_prefix_equal(s1@, s2@);
    }
    if s1.len() < s2.len() {
        -1
    } else if s1.len() == s2.len() {
        0
    } else {
        1
    }
}

/// Index of the first occurrence of `c` in `s`, or `None`.
pub fn wmemchr(s: &[wchar_t], c: wchar_t) -> (r: Option<usize>)
    ensures
        match r {
            Some(i) => i < s@.len() && s@[i as int] == c && forall|j: int|
                0 <= j < i ==> s@[j] != c,
            None => forall|j: int| 0 <= j < s@.len() ==> s@[j] != c,
        },
{
    let n: usize = s.len();
    let mut i: usize = 0;
    while i < n
        invariant
            0 <= i <= n,
            n == s@.len(),
            forall|j: int| 0 <= j < i ==> s@[j] != c,
        decreases n - i,
    {
        if s[i] == c {
            return Some(i);
        }
        i = i + 1;
    }
    None
}

/// Index of the last occurrence of `c` in `s`, or `None`.
pub fn wmemrchr(s: &[wchar_t], c: wchar_t) -> (r: Option<usize>)
    ensures
        match r {
            Some(i) => i < s@.len() && s@[i as int] == c && forall|j: int|
                i < j < s@.len() ==> s@[j] != c,
            None => forall|j: int| 0 <= j < s@.len() ==> s@[j] != c,
        },
{
    let mut i: usize = s.len();
    while i > 0
        invariant
            0 <= i <= s@.len(),
            forall|j: int| i <= j < s@.len() ==> s@[j] != c,
        decreases i,
    {
        i = i - 1;
        if s[i] == c {
            return Some(i);
        }
    }
    None
}

} // verus!
