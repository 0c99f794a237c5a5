//! Wide-character string layer: the C-string API mirrored over the wide
//! unit, with the same terminator-and-truncation semantics.

use vstd::prelude::*;

use crate::copying::{copy_elems, fill_elems};
use crate::specs::{
    compare_wide, lemma_compare_wide_first_diff, lemma_compare_wide_prefix_equal, lemma_term_len,
    lemma_term_len_is_first, lemma_term_len_take, lower_wide, match_at, term_len,
};
use crate::types::wchar_t;
use crate::wmem::{wmemchr, wmemrchr};

verus! {

broadcast use vstd::slice::group_slice_axioms;

/// Length of the wide C string held in `s`: the index of the first null
/// unit, or `s.len()` when none occurs.
pub open spec fn wstr_len(s: Seq<i32>) -> int {
    term_len(s, 0i32)
}

/// `s` lower-cased unit by unit (ASCII letters only).
pub open spec fn lower_wides(s: Seq<i32>) -> Seq<i32> {
    s.map_values(|c: i32| lower_wide(c))
}

/// ASCII lower-casing of one wide character.
fn to_lower_wide(c: wchar_t) -> (r: wchar_t)
    ensures
        r == lower_wide(c),
{
    if c >= 65 && c <= 90 {
        c + 32
    } else {
        c
    }
}

/// `c` occurs in `set`.
pub(crate) fn wide_contains(set: &[wchar_t], c: wchar_t) -> (r: bool)
    ensures
        r == set@.contains(c),
{
    let n: usize = set.len();
    let mut i: usize = 0;
    while i < n
        invariant
            0 <= i <= n,
            n == set@.len(),
            forall|j: int| 0 <= j < i ==> set@[j] != c,
        decreases n - i,
    {
        if set[i] == c {
            return true;
        }
        i = i + 1;
    }
    proof {
        assert(!set@.contains(c));
    }
    false
}

/// Number of wide characters before the first null unit, or the slice
/// length when none occurs.
pub fn wcslen(s: &[wchar_t]) -> (r: usize)
    ensures
        r == wstr_len(s@),
{
    let n: usize = s.len();
    let mut i: usize = 0;
    while i < n
        invariant
            0 <= i <= n,
            n == s@.len(),
            forall|j: int| 0 <= j < i ==> s@[j] != 0,
        decreases n - i,
    {
        if s[i] == 0 {
            proof {
                lemma_term_len_is_first(s@, 0i32, i as int);
            }
            return i;
        }
        i = i + 1;
    }
    proof {
        lemma_term_len_is_first(s@, 0i32, n as int);
    }
    n
}

/// Bounded wide string length: like [`wcslen`], but at most `maxlen`.
pub fn wcsnlen(s: &[wchar_t], maxlen: usize) -> (r: usize)
    ensures
        r == vstd::math::min(wstr_len(s@), vstd::math::min(maxlen as int, s@.len() as int)),
{
    let limit: usize = if s.len() <= maxlen {
        s.len()
    } else {
        maxlen
    };
    let window = vstd::slice::slice_subrange(s, 0, limit);
    proof {
        assert(window@ =~= s@.take(limit as int));
        lemma_term_len_take(s@, 0i32, limit as int);
    }
    wcslen(window)
}

/// Copy the wide C string in `src` into `dest`, terminator included when
/// it fits; the return value counts the terminator when written.
pub fn wcscpy(dest: &mut [wchar_t], src: &[wchar_t]) -> (r: usize)
    ensures
        final(dest)@.len() == old(dest)@.len(),
        ({
            let sl = wstr_len(src@);
            let fits = sl < old(dest)@.len() && sl < src@.len();
            let content_len = vstd::math::min(
                sl,
                vstd::math::min(old(dest)@.len() as int, src@.len() as int),
            );
            &&& forall|i: int| 0 <= i < content_len ==> final(dest)@[i] == src@[i]
            &&& fits ==> final(dest)@[sl] == 0 && r == sl + 1 && forall|i: int|
                sl < i < old(dest)@.len() ==> final(dest)@[i] == old(dest)@[i]
            &&& !fits ==> r == content_len && forall|i: int|
                content_len <= i < old(dest)@.len() ==> final(dest)@[i] == old(dest)@[i]
        }),
{
    proof {
        lemma_term_len(src@, 0i32);
    }
    let src_len = wcslen(src);
    let content_len: usize = {
        let m: usize = if dest.len() <= src.len() {
            dest.len()
        } else {
            src.len()
        };
        if src_len <= m {
            src_len
        } else {
            m
        }
    };
    copy_elems(dest, 0, src, 0, content_len);
    if src_len < dest.len() && src_len < src.len() {
        dest[src_len] = 0;
        src_len + 1
    } else {
        content_len
    }
}

/// Copy at most `n` units of the wide C string, padding the window with
/// null units; returns the window size.
pub fn wcsncpy(dest: &mut [wchar_t], src: &[wchar_t], n: usize) -> (r: usize)
    ensures
        final(dest)@.len() == old(dest)@.len(),
        ({
            let limit = vstd::math::min(old(dest)@.len() as int, n as int);
            let copy_len = vstd::math::min(wstr_len(src@), limit);
            &&& r == limit
            &&& forall|i: int| 0 <= i < copy_len ==> final(dest)@[i] == src@[i]
            &&& forall|i: int| copy_len <= i < limit ==> final(dest)@[i] == 0
            &&& forall|i: int|
                limit <= i < old(dest)@.len() ==> final(dest)@[i] == old(dest)@[i]
        }),
{
    proof {
        lemma_term_len(src@, 0i32);
    }
    let limit: usize = if dest.len() <= n {
        dest.len()
    } else {
        n
    };
    let src_len = wcslen(src);
    let copy_len: usize = if src_len <= limit {
        src_len
    } else {
        limit
    };
    copy_elems(dest, 0, src, 0, copy_len);
    if copy_len < limit {
        fill_elems(dest, copy_len, limit - copy_len, 0);
    }
    limit
}

/// Copy the wide C string and return the index of the written terminator.
/// Keeps one slot for the terminator whenever the destination is
/// non-empty.
pub fn wcpcpy(dest: &mut [wchar_t], src: &[wchar_t]) -> (r: usize)
    ensures
        final(dest)@.len() == old(dest)@.len(),
        ({
            let room = if old(dest)@.len() > 0 {
                old(dest)@.len() - 1
            } else {
                0
            };
            let copy_len = vstd::math::min(wstr_len(src@), room as int);
            &&& r == copy_len
            &&& forall|i: int| 0 <= i < copy_len ==> final(dest)@[i] == src@[i]
            &&& copy_len < old(dest)@.len() ==> final(dest)@[copy_len] == 0
            &&& forall|i: int|
                copy_len < i < old(dest)@.len() ==> final(dest)@[i] == old(dest)@[i]
        }),
{
    proof {
        lemma_term_len(src@, 0i32);
    }
    let src_len = wcslen(src);
    let room: usize = if dest.len() > 0 {
        dest.len() - 1
    } else {
        0
    };
    let copy_len: usize = if src_len <= room {
        src_len
    } else {
        room
    };
    copy_elems(dest, 0, src, 0, copy_len);
    if copy_len < dest.len() {
        dest[copy_len] = 0;
    }
    copy_len
}

/// Copy at most `n` units, padding with null units, and return the index
/// of the first null written (`min(dest.len(), n)` when none was).
pub fn wcpncpy(dest: &mut [wchar_t], src: &[wchar_t], n: usize) -> (r: usize)
    ensures
        final(dest)@.len() == old(dest)@.len(),
        ({
            let limit = vstd::math::min(old(dest)@.len() as int, n as int);
            let copy_len = vstd::math::min(wstr_len(src@), limit);
            &&& r == copy_len
            &&& forall|i: int| 0 <= i < copy_len ==> final(dest)@[i] == src@[i]
            &&& forall|i: int| copy_len <= i < limit ==> final(dest)@[i] == 0
            &&& forall|i: int|
                limit <= i < old(dest)@.len() ==> final(dest)@[i] == old(dest)@[i]
        }),
{
    proof {
        lemma_term_len(src@, 0i32);
    }
    let limit: usize = if dest.len() <= n {
        dest.len()
    } else {
        n
    };
    let src_len = wcslen(src);
    let copy_len: usize = if src_len <= limit {
        src_len
    } else {
        limit
    };
    copy_elems(dest, 0, src, 0, copy_len);
    if copy_len < limit {
        fill_elems(dest, copy_len, limit - copy_len, 0);
        copy_len
    } else {
        limit
    }
}

/// Append the wide C string in `src` to the one in `dest`, keeping a slot
/// for the terminator; returns the combined length.
pub fn wcscat(dest: &mut [wchar_t], src: &[wchar_t]) -> (r: usize)
    ensures
        final(dest)@.len() == old(dest)@.len(),
        ({
            let dl = wstr_len(old(dest)@);
            let sl = wstr_len(src@);
            let copy_len = if dl < old(dest)@.len() {
                vstd::math::min(sl, old(dest)@.len() - dl - 1)
            } else {
                0
            };
            &&& dl >= old(dest)@.len() ==> r == dl && final(dest)@ == old(dest)@
            &&& dl < old(dest)@.len() ==> {
                &&& r == dl + copy_len
                &&& forall|i: int| 0 <= i < dl ==> final(dest)@[i] == old(dest)@[i]
                &&& forall|i: int| 0 <= i < copy_len ==> final(dest)@[dl + i] == src@[i]
                &&& final(dest)@[dl + copy_len] == 0
                &&& forall|i: int|
                    dl + copy_len < i < old(dest)@.len() ==> final(dest)@[i] == old(dest)@[i]
            }
        }),
{
    proof {
        lemma_term_len(old(dest)@, 0i32);
        lemma_term_len(src@, 0i32);
    }
    let dest_len = wcslen(dest);
    let src_len = wcslen(src);
    if dest_len >= dest.len() {
        return dest_len;
    }
    let remaining: usize = dest.len() - dest_len;
    let copy_len: usize = if src_len <= remaining - 1 {
        src_len
    } else {
        remaining - 1
    };
    copy_elems(dest, dest_len, src, 0, copy_len);
    dest[dest_len + copy_len] = 0;
    dest_len + copy_len
}

/// Append at most `n` units of `src` to the wide C string in `dest`,
/// always terminating when the destination has room.
pub fn wcsncat(dest: &mut [wchar_t], src: &[wchar_t], n: usize) -> (r: usize)
    ensures
        final(dest)@.len() == old(dest)@.len(),
        ({
            let dl = wstr_len(old(dest)@);
            let sl = vstd::math::min(wstr_len(src@), vstd::math::min(n as int, src@.len() as int));
            let copy_len = if dl < old(dest)@.len() {
                vstd::math::min(sl, old(dest)@.len() - dl - 1)
            } else {
                0
            };
            &&& dl >= old(dest)@.len() ==> r == dl && final(dest)@ == old(dest)@
            &&& dl < old(dest)@.len() ==> {
                &&& r == dl + copy_len
                &&& forall|i: int| 0 <= i < dl ==> final(dest)@[i] == old(dest)@[i]
                &&& forall|i: int| 0 <= i < copy_len ==> final(dest)@[dl + i] == src@[i]
                &&& final(dest)@[dl + copy_len] == 0
                &&& forall|i: int|
                    dl + copy_len < i < old(dest)@.len() ==> final(dest)@[i] == old(dest)@[i]
            }
        }),
{
    proof {
        lemma_term_len(old(dest)@, 0i32);
    }
    let dest_len = wcslen(dest);
    let src_len = wcsnlen(src, n);
    if dest_len >= dest.len() {
        return dest_len;
    }
    let remaining: usize = dest.len() - dest_len;
    let copy_len: usize = if src_len <= remaining - 1 {
        src_len
    } else {
        remaining - 1
    };
    copy_elems(dest, dest_len, src, 0, copy_len);
    dest[dest_len + copy_len] = 0;
    dest_len + copy_len
}

/// Compare two wide C strings; the result is a sign (`-1`, `0`, `1`),
/// shorter-is-less when one is a prefix of the other.
pub fn wcscmp(s1: &[wchar_t], s2: &[wchar_t]) -> (r: i32)
    ensures
        r as int == compare_wide(s1@.take(wstr_len(s1@)), s2@.take(wstr_len(s2@))),
{
    proof {
        lemma_term_len(s1@, 0i32);
        lemma_term_len(s2@, 0i32);
    }
    let len1 = wcslen(s1);
    let len2 = wcslen(s2);
    let ghost a = s1@.take(len1 as int);
    let ghost b = s2@.take(len2 as int);
    let min_len: usize = if len1 <= len2 {
        len1
    } else {
        len2
    };
    let mut i: usize = 0;
    while i < min_len
        invariant
            0 <= i <= min_len,
            len1 == wstr_len(s1@) <= s1@.len(),
            len2 == wstr_len(s2@) <= s2@.len(),
            min_len == vstd::math::min(len1 as int, len2 as int),
            a == s1@.take(len1 as int),
            b == s2@.take(len2 as int),
            forall|j: int| 0 <= j < i ==> s1@[j] == s2@[j],
        decreases min_len - i,
    {
        if s1[i] != s2[i] {
            proof {
                assert forall|j: int| 0 <= j < i implies a[j] == b[j] by {
                    assert(a[j] == s1@[j]);
                    assert(b[j] == s2@[j]);
                }
                assert(a[i as int] == s1@[i as int]);
                assert(b[i as int] == s2@[i as int]);
                lemma_compare_wide_first_diff(a, b, i as int);
            }
            return if s1[i] < s2[i] {
                -1
            } else {
                1
            };
        }
        i = i + 1;
    }
    proof {
        assert forall|j: int|
            0 <= j < vstd::math::min(a.len() as int, b.len() as int) implies a[j] == b[j] by {
            assert(a[j] == s1@[j]);
            assert(b[j] == s2@[j]);
        }
        lemma_compare_wide_prefix_equal(a, b);
    }
    if len1 < len2 {
        -1
    } else if len1 == len2 {
        0
    } else {
        1
    }
}

/// Compare at most `n` units of the two wide C strings, with the length
/// tie-break only when both strings end before the bound.
pub fn wcsncmp(s1: &[wchar_t], s2: &[wchar_t], n: usize) -> (r: i32)
    ensures
        ({
            let l1 = vstd::math::min(wstr_len(s1@), vstd::math::min(n as int, s1@.len() as int));
            let l2 = vstd::math::min(wstr_len(s2@), vstd::math::min(n as int, s2@.len() as int));
            let m = vstd::math::min(l1, l2);
            if l1 < n && l2 < n {
                r as int == compare_wide(s1@.take(l1), s2@.take(l2))
            } else {
                r as int == compare_wide(s1@.take(m), s2@.take(m))
            }
        }),
{
    proof {
        lemma_term_len(s1@, 0i32);
        lemma_term_len(s2@, 0i32);
    }
    if n == 0 {
        proof {
            assert(s1@.take(0) =~= Seq::<i32>::empty());
            assert(s2@.take(0) =~= Seq::<i32>::empty());
        }
        return 0;
    }
    let len1 = wcsnlen(s1, n);
    let len2 = wcsnlen(s2, n);
    let ghost l1 = len1 as int;
    let ghost l2 = len2 as int;
    let min_len: usize = if len1 <= len2 {
        len1
    } else {
        len2
    };
    let mut i: usize = 0;
    while i < min_len
        invariant
            0 <= i <= min_len,
            l1 == len1 as int,
            l2 == len2 as int,
            l1 == vstd::math::min(wstr_len(s1@), vstd::math::min(n as int, s1@.len() as int)),
            l2 == vstd::math::min(wstr_len(s2@), vstd::math::min(n as int, s2@.len() as int)),
            len1 <= s1@.len(),
            len2 <= s2@.len(),
            min_len == vstd::math::min(l1, l2),
            forall|j: int| 0 <= j < i ==> s1@[j] == s2@[j],
        decreases min_len - i,
    {
        if s1[i] != s2[i] {
            proof {
                assert forall|j: int| 0 <= j < i implies s1@.take(l1)[j] == s2@.take(l2)[j] by {
                    assert(s1@.take(l1)[j] == s1@[j]);
                    assert(s2@.take(l2)[j] == s2@[j]);
                }
                assert(s1@.take(l1)[i as int] == s1@[i as int]);
                assert(s2@.take(l2)[i as int] == s2@[i as int]);
                lemma_compare_wide_first_diff(s1@.take(l1), s2@.take(l2), i as int);
                let m = vstd::math::min(l1, l2);
                assert forall|j: int| 0 <= j < i implies s1@.take(m)[j] == s2@.take(m)[j] by {
                    assert(s1@.take(m)[j] == s1@[j]);
                    assert(s2@.take(m)[j] == s2@[j]);
                }
                assert(s1@.take(m)[i as int] == s1@[i as int]);
                assert(s2@.take(m)[i as int] == s2@[i as int]);
                lemma_compare_wide_first_diff(s1@.take(m), s2@.take(m), i as int);
            }
            return if s1[i] < s2[i] {
                -1
            } else {
                1
            };
        }
        i = i + 1;
    }
    proof {
        let m = vstd::math::min(l1, l2);
        assert forall|j: int|
            0 <= j < vstd::math::min(
                s1@.take(l1).len() as int,
                s2@.take(l2).len() as int,
            ) implies s1@.take(l1)[j] == s2@.take(l2)[j] by {
            assert(s1@.take(l1)[j] == s1@[j]);
            assert(s2@.take(l2)[j] == s2@[j]);
        }
        lemma_compare_wide_prefix_equal(s1@.take(l1), s2@.take(l2));
        assert forall|j: int|
            0 <= j < vstd::math::min(
                s1@.take(m).len() as int,
                s2@.take(m).len() as int,
            ) implies s1@.take(m)[j] == s2@.take(m)[j] by {
            assert(s1@.take(m)[j] == s1@[j]);
            assert(s2@.take(m)[j] == s2@[j]);
        }
        lemma_compare_wide_prefix_equal(s1@.take(m), s2@.take(m));
    }
    if len1 < n && len2 < n {
        if len1 < len2 {
            -1
        } else if len1 == len2 {
            0
        } else {
            1
        }
    } else {
        0
    }
}

/// Compare using locale collation; in the single supported locale this is
/// [`wcscmp`].
pub fn wcscoll(s1: &[wchar_t], s2: &[wchar_t]) -> (r: i32)
    ensures
        r as int == compare_wide(s1@.take(wstr_len(s1@)), s2@.take(wstr_len(s2@))),
{
    wcscmp(s1, s2)
}

/// Index of the first occurrence of `c` in the wide C string (the
/// terminator itself can be found), or `None`.
pub fn wcschr(s: &[wchar_t], c: wchar_t) -> (r: Option<usize>)
    ensures
        ({
            let w = if c == 0 {
                s@.len() as int
            } else {
                vstd::math::min(wstr_len(s@) + 1, s@.len() as int)
            };
            match r {
                Some(i) => i < w && s@[i as int] == c && forall|j: int| 0 <= j < i ==> s@[j] != c,
                None => forall|j: int| 0 <= j < w ==> s@[j] != c,
            }
        }),
{
    proof {
        lemma_term_len(s@, 0i32);
    }
    let len: usize = if c == 0 {
        s.len()
    } else {
        let sl = wcslen(s);
        if sl < s.len() {
            sl + 1
        } else {
            s.len()
        }
    };
    let window = vstd::slice::slice_subrange(s, 0, len);
    proof {
        assert(window@ =~= s@.take(len as int));
    }
    let r = wmemchr(window, c);
    proof {
        match r {
            Some(i) => {
                assert(window@[i as int] == s@[i as int]);
                assert forall|j: int| 0 <= j < i implies s@[j] != c by {
                    assert(window@[j] == s@[j]);
                }
            },
            None => {
                assert forall|j: int| 0 <= j < len implies s@[j] != c by {
                    assert(window@[j] == s@[j]);
                }
            },
        }
    }
    r
}

/// Index of the last occurrence of `c` in the wide C string, or `None`.
pub fn wcsrchr(s: &[wchar_t], c: wchar_t) -> (r: Option<usize>)
    ensures
        ({
            let w = if c == 0 {
                vstd::math::min(wstr_len(s@) + 1, s@.len() as int)
            } else {
                vstd::math::min(wstr_len(s@), s@.len() as int)
            };
            match r {
                Some(i) => i < w && s@[i as int] == c && forall|j: int| i < j < w ==> s@[j] != c,
                None => forall|j: int| 0 <= j < w ==> s@[j] != c,
            }
        }),
{
    proof {
        lemma_term_len(s@, 0i32);
    }
    let sl = wcslen(s);
    let len: usize = if c == 0 {
        if sl < s.len() {
            sl + 1
        } else {
            s.len()
        }
    } else {
        sl
    };
    let window = vstd::slice::slice_subrange(s, 0, len);
    proof {
        assert(window@ =~= s@.take(len as int));
    }
    let r = wmemrchr(window, c);
    proof {
        match r {
            Some(i) => {
                assert(window@[i as int] == s@[i as int]);
                assert forall|j: int| i < j < len implies s@[j] != c by {
                    assert(window@[j] == s@[j]);
                }
            },
            None => {
                assert forall|j: int| 0 <= j < len implies s@[j] != c by {
                    assert(window@[j] == s@[j]);
                }
            },
        }
    }
    r
}

/// Index of the first occurrence of `c` in the wide C string, or the
/// string length when `c` does not occur.
pub fn wcschrnul(s: &[wchar_t], c: wchar_t) -> (r: usize)
    ensures
        r == term_len(s@.take(wstr_len(s@)), c),
{
    proof {
        lemma_term_len(s@, 0i32);
    }
    let len = wcslen(s);
    if c == 0 {
        proof {
            lemma_term_len(s@.take(len as int), c);
            lemma_term_len_is_first(s@.take(len as int), c, len as int);
        }
        return len;
    }
    let window = vstd::slice::slice_subrange(s, 0, len);
    proof {
        assert(window@ =~= s@.take(len as int));
    }
    match wmemchr(window, c) {
        Some(i) => {
            proof {
                lemma_term_len_is_first(s@.take(len as int), c, i as int);
            }
            i
        },
        None => {
            proof {
                lemma_term_len_is_first(s@.take(len as int), c, len as int);
            }
            len
        },
    }
}

/// `needle` matches `haystack` at `i`.
fn weq_at(haystack: &[wchar_t], needle: &[wchar_t], i: usize) -> (r: bool)
    requires
        i + needle@.len() <= haystack@.len(),
    ensures
        r == match_at(haystack@, needle@, i as int),
{
    proof {
        vstd::slice::axiom_spec_len(haystack);
    }
    let m: usize = needle.len();
    let mut j: usize = 0;
    while j < m
        invariant
            0 <= j <= m,
            m == needle@.len(),
            i + m <= haystack@.len() <= usize::MAX,
            forall|k: int| 0 <= k < j ==> haystack@[i + k] == needle@[k],
        decreases m - j,
    {
        if haystack[i + j] != needle[j] {
            proof {
                let sub = haystack@.subrange(i as int, i + m);
                assert(sub[j as int] == haystack@[i + j]);
            }
            return false;
        }
        j = j + 1;
    }
    proof {
        assert(haystack@.subrange(i as int, i + m) =~= needle@);
    }
    true
}

/// Index of the first occurrence of the wide C string `needle` inside the
/// wide C string `haystack`, or `None`; the empty needle matches at 0.
pub fn wcsstr(haystack: &[wchar_t], needle: &[wchar_t]) -> (r: Option<usize>)
    ensures
        ({
            let h = haystack@.take(wstr_len(haystack@));
            let n = needle@.take(wstr_len(needle@));
            match r {
                Some(i) => match_at(h, n, i as int) && forall|j: int|
                    0 <= j < i ==> !match_at(h, n, j),
                None => forall|j: int| !match_at(h, n, j),
            }
        }),
{
    proof {
        lemma_term_len(haystack@, 0i32);
        lemma_term_len(needle@, 0i32);
    }
    let h_len = wcslen(haystack);
    let n_len = wcslen(needle);
    let h = vstd::slice::slice_subrange(haystack, 0, h_len);
    let n = vstd::slice::slice_subrange(needle, 0, n_len);
    proof {
        assert(h@ =~= haystack@.take(h_len as int));
        assert(n@ =~= needle@.take(n_len as int));
    }
    if n_len == 0 {
        proof {
            assert(h@.subrange(0, 0) =~= n@);
        }
        return Some(0);
    }
    if n_len > h_len {
        return None;
    }
    let max_start: usize = h_len - n_len;
    let mut i: usize = 0;
    while i <= max_start
        invariant
            0 <= i <= max_start + 1,
            h@ == haystack@.take(wstr_len(haystack@)),
            n@ == needle@.take(wstr_len(needle@)),
            h_len == h@.len(),
            n_len == n@.len(),
            1 <= n_len <= h_len <= usize::MAX,
            max_start == h_len - n_len,
            forall|j: int| 0 <= j < i ==> !match_at(h@, n@, j),
        decreases max_start + 1 - i,
    {
        if weq_at(h, n, i) {
            return Some(i);
        }
        i = i + 1;
    }
    None
}

/// Length of the longest prefix of the wide C string in `s` whose units
/// all come from the wide C string in `accept`.
pub fn wcsspn(s: &[wchar_t], accept: &[wchar_t]) -> (r: usize)
    ensures
        ({
            let st = s@.take(wstr_len(s@));
            let at = accept@.take(wstr_len(accept@));
            &&& r <= st.len()
            &&& forall|j: int| 0 <= j < r ==> at.contains(st[j])
            &&& r < st.len() ==> !at.contains(st[r as int])
        }),
{
    proof {
        lemma_term_len(s@, 0i32);
        lemma_term_len(accept@, 0i32);
    }
    let s_len = wcslen(s);
    let a_len = wcslen(accept);
    let st = vstd::slice::slice_subrange(s, 0, s_len);
    let at = vstd::slice::slice_subrange(accept, 0, a_len);
    proof {
        assert(st@ =~= s@.take(s_len as int));
        assert(at@ =~= accept@.take(a_len as int));
    }
    let mut i: usize = 0;
    while i < s_len
        invariant
            0 <= i <= s_len,
            s_len == st@.len(),
            st@ == s@.take(wstr_len(s@)),
            at@ == accept@.take(wstr_len(accept@)),
            forall|j: int| 0 <= j < i ==> at@.contains(st@[j]),
        decreases s_len - i,
    {
        if !wide_contains(at, st[i]) {
            return i;
        }
        i = i + 1;
    }
    s_len
}

/// Length of the longest prefix of the wide C string in `s` containing no
/// unit of the wide C string in `reject`.
pub fn wcscspn(s: &[wchar_t], reject: &[wchar_t]) -> (r: usize)
    ensures
        ({
            let st = s@.take(wstr_len(s@));
            let rt = reject@.take(wstr_len(reject@));
            &&& r <= st.len()
            &&& forall|j: int| 0 <= j < r ==> !rt.contains(st[j])
            &&& r < st.len() ==> rt.contains(st[r as int])
        }),
{
    proof {
        lemma_term_len(s@, 0i32);
        lemma_term_len(reject@, 0i32);
    }
    let s_len = wcslen(s);
    let r_len = wcslen(reject);
    let st = vstd::slice::slice_subrange(s, 0, s_len);
    let rt = vstd::slice::slice_subrange(reject, 0, r_len);
    proof {
        assert(st@ =~= s@.take(s_len as int));
        assert(rt@ =~= reject@.take(r_len as int));
    }
    let mut i: usize = 0;
    while i < s_len
        invariant
            0 <= i <= s_len,
            s_len == st@.len(),
            st@ == s@.take(wstr_len(s@)),
            rt@ == reject@.take(wstr_len(reject@)),
            forall|j: int| 0 <= j < i ==> !rt@.contains(st@[j]),
        decreases s_len - i,
    {
        if wide_contains(rt, st[i]) {
            return i;
        }
        i = i + 1;
    }
    s_len
}

/// Index of the first unit of the wide C string in `s` that occurs in the
/// wide C string `accept`, or `None`.
pub fn wcspbrk(s: &[wchar_t], accept: &[wchar_t]) -> (r: Option<usize>)
    ensures
        ({
            let st = s@.take(wstr_len(s@));
            let at = accept@.take(wstr_len(accept@));
            match r {
                Some(i) => i < st.len() && at.contains(st[i as int]) && forall|j: int|
                    0 <= j < i ==> !at.contains(st[j]),
                None => forall|j: int| 0 <= j < st.len() ==> !at.contains(st[j]),
            }
        }),
{
    proof {
        lemma_term_len(s@, 0i32);
        lemma_term_len(accept@, 0i32);
    }
    let s_len = wcslen(s);
    let a_len = wcslen(accept);
    let st = vstd::slice::slice_subrange(s, 0, s_len);
    let at = vstd::slice::slice_subrange(accept, 0, a_len);
    proof {
        assert(st@ =~= s@.take(s_len as int));
        assert(at@ =~= accept@.take(a_len as int));
    }
    let mut i: usize = 0;
    while i < s_len
        invariant
            0 <= i <= s_len,
            s_len == st@.len(),
            st@ == s@.take(wstr_len(s@)),
            at@ == accept@.take(wstr_len(accept@)),
            forall|j: int| 0 <= j < i ==> !at@.contains(st@[j]),
        decreases s_len - i,
    {
        if wide_contains(at, st[i]) {
            return Some(i);
        }
        i = i + 1;
    }
    None
}

/// Compare the wide C strings ignoring ASCII case; sign-only result.
pub fn wcscasecmp(s1: &[wchar_t], s2: &[wchar_t]) -> (r: i32)
    ensures
        r as int == compare_wide(
            lower_wides(s1@.take(wstr_len(s1@))),
            lower_wides(s2@.take(wstr_len(s2@))),
        ),
{
    proof {
        lemma_term_len(s1@, 0i32);
        lemma_term_len(s2@, 0i32);
    }
    let len1 = wcslen(s1);
    let len2 = wcslen(s2);
    let ghost a = lower_wides(s1@.take(len1 as int));
    let ghost b = lower_wides(s2@.take(len2 as int));
    let min_len: usize = if len1 <= len2 {
        len1
    } else {
        len2
    };
    let mut i: usize = 0;
    while i < min_len
        invariant
            0 <= i <= min_len,
            len1 == wstr_len(s1@) <= s1@.len(),
            len2 == wstr_len(s2@) <= s2@.len(),
            min_len == vstd::math::min(len1 as int, len2 as int),
            a == lower_wides(s1@.take(len1 as int)),
            b == lower_wides(s2@.take(len2 as int)),
            forall|j: int| 0 <= j < i ==> lower_wide(s1@[j]) == lower_wide(s2@[j]),
        decreases min_len - i,
    {
        let c1 = to_lower_wide(s1[i]);
        let c2 = to_lower_wide(s2[i]);
        if c1 != c2 {
            proof {
                assert forall|j: int| 0 <= j < i implies a[j] == b[j] by {
                    assert(a[j] == lower_wide(s1@.take(len1 as int)[j]));
                    assert(b[j] == lower_wide(s2@.take(len2 as int)[j]));
                }
                assert(a[i as int] == lower_wide(s1@.take(len1 as int)[i as int]));
                assert(b[i as int] == lower_wide(s2@.take(len2 as int)[i as int]));
                lemma_compare_wide_first_diff(a, b, i as int);
            }
            return if c1 < c2 {
                -1
            } else {
                1
            };
        }
        i = i + 1;
    }
    proof {
        assert forall|j: int|
            0 <= j < vstd::math::min(a.len() as int, b.len() as int) implies a[j] == b[j] by {
            assert(a[j] == lower_wide(s1@.take(len1 as int)[j]));
            assert(b[j] == lower_wide(s2@.take(len2 as int)[j]));
        }
        lemma_compare_wide_prefix_equal(a, b);
    }
    if len1 < len2 {
        -1
    } else if len1 == len2 {
        0
    } else {
        1
    }
}

/// Compare at most `n` units of the wide C strings ignoring ASCII case,
/// with the same bounded tie-break rule as [`wcsncmp`].
pub fn wcsncasecmp(s1: &[wchar_t], s2: &[wchar_t], n: usize) -> (r: i32)
    ensures
        ({
            let l1 = vstd::math::min(wstr_len(s1@), vstd::math::min(n as int, s1@.len() as int));
            let l2 = vstd::math::min(wstr_len(s2@), vstd::math::min(n as int, s2@.len() as int));
            let m = vstd::math::min(l1, l2);
            if l1 < n && l2 < n {
                r as int == compare_wide(lower_wides(s1@.take(l1)), lower_wides(s2@.take(l2)))
            } else {
                r as int == compare_wide(lower_wides(s1@.take(m)), lower_wides(s2@.take(m)))
            }
        }),
{
    proof {
        lemma_term_len(s1@, 0i32);
        lemma_term_len(s2@, 0i32);
    }
    if n == 0 {
        proof {
            assert(s1@.take(0) =~= Seq::<i32>::empty());
            assert(s2@.take(0) =~= Seq::<i32>::empty());
            assert(lower_wides(s1@.take(0)) =~= Seq::<i32>::empty());
            assert(lower_wides(s2@.take(0)) =~= Seq::<i32>::empty());
        }
        return 0;
    }
    let len1 = wcsnlen(s1, n);
    let len2 = wcsnlen(s2, n);
    let ghost l1 = len1 as int;
    let ghost l2 = len2 as int;
    let min_len: usize = if len1 <= len2 {
        len1
    } else {
        len2
    };
    let mut i: usize = 0;
    while i < min_len
        invariant
            0 <= i <= min_len,
            l1 == len1 as int,
            l2 == len2 as int,
            l1 == vstd::math::min(wstr_len(s1@), vstd::math::min(n as int, s1@.len() as int)),
            l2 == vstd::math::min(wstr_len(s2@), vstd::math::min(n as int, s2@.len() as int)),
            len1 <= s1@.len(),
            len2 <= s2@.len(),
            min_len == vstd::math::min(l1, l2),
            forall|j: int| 0 <= j < i ==> lower_wide(s1@[j]) == lower_wide(s2@[j]),
        decreases min_len - i,
    {
        let c1 = to_lower_wide(s1[i]);
        let c2 = to_lower_wide(s2[i]);
        if c1 != c2 {
            proof {
                let m = vstd::math::min(l1, l2);
                assert forall|j: int|
                    0 <= j < i implies lower_wides(s1@.take(l1))[j] == lower_wides(
                    s2@.take(l2),
                )[j] by {
                    assert(lower_wides(s1@.take(l1))[j] == lower_wide(s1@.take(l1)[j]));
                    assert(lower_wides(s2@.take(l2))[j] == lower_wide(s2@.take(l2)[j]));
                }
                assert(lower_wides(s1@.take(l1))[i as int] == lower_wide(s1@.take(l1)[i as int]));
                assert(lower_wides(s2@.take(l2))[i as int] == lower_wide(s2@.take(l2)[i as int]));
                lemma_compare_wide_first_diff(
                    lower_wides(s1@.take(l1)),
                    lower_wides(s2@.take(l2)),
                    i as int,
                );
                assert forall|j: int|
                    0 <= j < i implies lower_wides(s1@.take(m))[j] == lower_wides(
                    s2@.take(m),
                )[j] by {
                    assert(lower_wides(s1@.take(m))[j] == lower_wide(s1@.take(m)[j]));
                    assert(lower_wides(s2@.take(m))[j] == lower_wide(s2@.take(m)[j]));
                }
                assert(lower_wides(s1@.take(m))[i as int] == lower_wide(s1@.take(m)[i as int]));
                assert(lower_wides(s2@.take(m))[i as int] == lower_wide(s2@.take(m)[i as int]));
                lemma_compare_wide_first_diff(
                    lower_wides(s1@.take(m)),
                    lower_wides(s2@.take(m)),
                    i as int,
                );
            }
            return if c1 < c2 {
                -1
            } else {
                1
            };
        }
        i = i + 1;
    }
    proof {
        let m = vstd::math::min(l1, l2);
        assert forall|j: int|
            0 <= j < vstd::math::min(
                lower_wides(s1@.take(l1)).len() as int,
                lower_wides(s2@.take(l2)).len() as int,
            ) implies lower_wides(s1@.take(l1))[j] == lower_wides(s2@.take(l2))[j] by {
            assert(lower_wides(s1@.take(l1))[j] == lower_wide(s1@.take(l1)[j]));
            assert(lower_wides(s2@.take(l2))[j] == lower_wide(s2@.take(l2)[j]));
        }
        lemma_compare_wide_prefix_equal(lower_wides(s1@.take(l1)), lower_wides(s2@.take(l2)));
        assert forall|j: int|
            0 <= j < vstd::math::min(
                lower_wides(s1@.take(m)).len() as int,
                lower_wides(s2@.take(m)).len() as int,
            ) implies lower_wides(s1@.take(m))[j] == lower_wides(s2@.take(m))[j] by {
            assert(lower_wides(s1@.take(m))[j] == lower_wide(s1@.take(m)[j]));
            assert(lower_wides(s2@.take(m))[j] == lower_wide(s2@.take(m)[j]));
        }
        lemma_compare_wide_prefix_equal(lower_wides(s1@.take(m)), lower_wides(s2@.take(m)));
    }
    if len1 < n && len2 < n {
        if len1 < len2 {
            -1
        } else if len1 == len2 {
            0
        } else {
            1
        }
    } else {
        0
    }
}

/// Size-bounded wide copy: copy up to `dest.len() - 1` units and always
/// terminate; returns the source string length for truncation detection.
pub fn wcslcpy(dest: &mut [wchar_t], src: &[wchar_t]) -> (r: usize)
    ensures
        final(dest)@.len() == old(dest)@.len(),
        r == wstr_len(src@),
        ({
            let copy_len = if old(dest)@.len() > 0 {
                vstd::math::min(wstr_len(src@), old(dest)@.len() - 1)
            } else {
                0
            };
            &&& old(dest)@.len() == 0 ==> final(dest)@ == old(dest)@
            &&& old(dest)@.len() > 0 ==> {
                &&& forall|i: int| 0 <= i < copy_len ==> final(dest)@[i] == src@[i]
                &&& final(dest)@[copy_len] == 0
                &&& forall|i: int|
                    copy_len < i < old(dest)@.len() ==> final(dest)@[i] == old(dest)@[i]
            }
        }),
{
    proof {
        lemma_term_len(src@, 0i32);
    }
    let src_len = wcslen(src);
    if dest.len() == 0 {
        return src_len;
    }
    let copy_len: usize = if src_len <= dest.len() - 1 {
        src_len
    } else {
        dest.len() - 1
    };
    copy_elems(dest, 0, src, 0, copy_len);
    dest[copy_len] = 0;
    src_len
}

/// Size-bounded wide append: append `src` to the wide C string in `dest`,
/// always terminating; returns the untruncated combined length.
pub fn wcslcat(dest: &mut [wchar_t], src: &[wchar_t]) -> (r: usize)
    requires
        old(dest)@.len() + wstr_len(src@) <= usize::MAX,
    ensures
        final(dest)@.len() == old(dest)@.len(),
        ({
            let size = old(dest)@.len() as int;
            let dl = vstd::math::min(wstr_len(old(dest)@), size);
            let sl = wstr_len(src@);
            let copy_len = if dl < size {
                vstd::math::min(sl, size - dl - 1)
            } else {
                0
            };
            &&& dl >= size ==> r == size + sl && final(dest)@ == old(dest)@
            &&& dl < size ==> {
                &&& r == dl + sl
                &&& forall|i: int| 0 <= i < dl ==> final(dest)@[i] == old(dest)@[i]
                &&& forall|i: int| 0 <= i < copy_len ==> final(dest)@[dl + i] == src@[i]
                &&& final(dest)@[dl + copy_len] == 0
                &&& forall|i: int|
                    dl + copy_len < i < old(dest)@.len() ==> final(dest)@[i] == old(dest)@[i]
            }
        }),
{
    proof {
        lemma_term_len(old(dest)@, 0i32);
        lemma_term_len(src@, 0i32);
    }
    let size: usize = dest.len();
    let dest_len = wcsnlen(dest, size);
    let src_len = wcslen(src);
    if dest_len >= size {
        return size + src_len;
    }
    let remaining: usize = size - dest_len;
    let copy_len: usize = if src_len <= remaining - 1 {
        src_len
    } else {
        remaining - 1
    };
    copy_elems(dest, dest_len, src, 0, copy_len);
    dest[dest_len + copy_len] = 0;
    dest_len + src_len
}

/// Duplicate the wide C string in `src` into an owned, always-terminated
/// buffer.
pub fn wcsdup(src: &[wchar_t]) -> (r: Vec<wchar_t>)
    ensures
        r@ == src@.take(wstr_len(src@)).push(0i32),
{
    proof {
        lemma_term_len(src@, 0i32);
    }
    let src_len = wcslen(src);
    let mut out: Vec<wchar_t> = Vec::new();
    let mut i: usize = 0;
    while i < src_len
        invariant
            0 <= i <= src_len,
            src_len == wstr_len(src@) <= src@.len(),
            out@ == src@.take(i as int),
        decreases src_len - i,
    {
        out.push(src[i]);
        proof {
            assert(out@ =~= src@.take(i + 1));
        }
        i = i + 1;
    }
    out.push(0);
    out
}

/// Wide collation transform: identity copy in the single supported locale,
/// returning the transformed length.
pub fn wcsxfrm(dest: &mut [wchar_t], src: &[wchar_t]) -> (r: usize)
    ensures
        final(dest)@.len() == old(dest)@.len(),
        r == wstr_len(src@),
        ({
            let copy_len = if old(dest)@.len() > 0 {
                vstd::math::min(wstr_len(src@), old(dest)@.len() - 1)
            } else {
                0
            };
            &&& old(dest)@.len() == 0 ==> final(dest)@ == old(dest)@
            &&& old(dest)@.len() > 0 ==> {
                &&& forall|i: int| 0 <= i < copy_len ==> final(dest)@[i] == src@[i]
                &&& final(dest)@[copy_len] == 0
                &&& forall|i: int|
                    copy_len < i < old(dest)@.len() ==> final(dest)@[i] == old(dest)@[i]
            }
        }),
{
    proof {
        lemma_term_len(src@, 0i32);
    }
    let src_len = wcslen(src);
    if dest.len() == 0 {
        return src_len;
    }
    let copy_len: usize = if src_len <= dest.len() - 1 {
        src_len
    } else {
        dest.len() - 1
    };
    copy_elems(dest, 0, src, 0, copy_len);
    dest[copy_len] = 0;
    src_len
}

} // verus!
