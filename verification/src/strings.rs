//! Null-terminated byte-string layer: thin, loop-light wrappers that add
//! C-string semantics (terminator handling, truncation, locale no-ops) on
//! top of the byte memory engines.

use vstd::prelude::*;

use crate::copying::{copy_elems, fill_elems};
use crate::specs::{
    compare_bytes, lemma_compare_bytes_first_diff, lemma_compare_bytes_prefix_equal, lemma_term_len,
    lemma_term_len_is_first, lemma_term_len_take, lower_byte, term_len,
};

verus! {

broadcast use vstd::slice::group_slice_axioms;

/// Length of the C string held in `s`: the index of the first null byte,
/// or `s.len()` when no null byte occurs.
pub open spec fn cstr_len(s: Seq<u8>) -> int {
    term_len(s, 0u8)
}

/// `s` lower-cased byte by byte (ASCII letters only).
pub open spec fn lower_bytes(s: Seq<u8>) -> Seq<u8> {
    s.map_values(|c: u8| lower_byte(c))
}

/// ASCII lower-casing of one byte.
fn to_lower_ascii(c: u8) -> (r: u8)
    ensures
        r == lower_byte(c),
{
    if c >= 65 && c <= 90 {
        c + 32
    } else {
        c
    }
}

/// Number of bytes before the first null byte, or the slice length when no
/// null byte occurs.
pub fn strlen(s: &[u8]) -> (r: usize)
    ensures
        r == cstr_len(s@),
{
    let n: usize = s.len();
    let mut i: usize = 0;
    while i < n
        invariant
            0 <= i <= n,
            n == s@.len(),
            forall|j: int| 0 <= j < i ==> s@[j] != 0,
        decreases n - i,
    {
        if s[i] == 0 {
            proof {
                lemma_term_len_is_first(s@, 0u8, i as int);
            }
            return i;
        }
        i = i + 1;
    }
    proof {
        lemma_term_len_is_first(s@, 0u8, n as int);
    }
    n
}

/// Bounded string length: like [`strlen`], but at most `maxlen`.
pub fn strnlen(s: &[u8], maxlen: usize) -> (r: usize)
    ensures
        r == vstd::math::min(
            cstr_len(s@),
            vstd::math::min(maxlen as int, s@.len() as int),
        ),
{
    let limit: usize = if s.len() <= maxlen {
        s.len()
    } else {
        maxlen
    };
    let window = vstd::slice::slice_subrange(s, 0, limit);
    proof {
        assert(window@ =~= s@.take(limit as int));
        lemma_term_len_take(s@, 0u8, limit as int);
    }
    strlen(window)
}

/// Copy the C string in `src` into `dest`, terminator included when it
/// fits. Returns the count of bytes written (terminator included) when the
/// whole string fits, and the count of content bytes copied otherwise.
pub fn strcpy(dest: &mut [u8], src: &[u8]) -> (r: usize)
    ensures
        final(dest)@.len() == old(dest)@.len(),
        ({
            let sl = cstr_len(src@);
            let fits = sl < old(dest)@.len() && sl < src@.len();
            let content_len = vstd::math::min(
                sl,
                vstd::math::min(old(dest)@.len() as int, src@.len() as int),
            );
            &&& forall|i: int| 0 <= i < content_len ==> final(dest)@[i] == src@[i]
            &&& fits ==> final(dest)@[sl] == 0 && r == sl + 1 && forall|i: int|
                sl < i < old(dest)@.len() ==> final(dest)@[i] == old(dest)@[i]
            &&& !fits ==> r == content_len && forall|i: int|
                content_len <= i < old(dest)@.len() ==> final(dest)@[i] == old(dest)@[i]
        }),
{
    proof {
        lemma_term_len(src@, 0u8);
    }
    let src_len = strlen(src);
    let content_len: usize = {
        let m: usize = if dest.len() <= src.len() {
            dest.len()
        } else {
            src.len()
        };
        if src_len <= m {
            src_len
        } else {
            m
        }
    };
    copy_elems(dest, 0, src, 0, content_len);
    if src_len < dest.len() && src_len < src.len() {
        dest[src_len] = 0;
        src_len + 1
    } else {
        content_len
    }
}

/// Copy at most `n` bytes of the C string in `src` into `dest`, padding
/// the rest of the window with null bytes. Returns the window size
/// `min(dest.len(), n)`.
pub fn strncpy(dest: &mut [u8], src: &[u8], n: usize) -> (r: usize)
    ensures
        final(dest)@.len() == old(dest)@.len(),
        ({
            let limit = vstd::math::min(old(dest)@.len() as int, n as int);
            let copy_len = vstd::math::min(cstr_len(src@), limit);
            &&& r == limit
            &&& forall|i: int| 0 <= i < copy_len ==> final(dest)@[i] == src@[i]
            &&& forall|i: int| copy_len <= i < limit ==> final(dest)@[i] == 0
            &&& forall|i: int|
                limit <= i < old(dest)@.len() ==> final(dest)@[i] == old(dest)@[i]
        }),
{
    proof {
        lemma_term_len(src@, 0u8);
    }
    let limit: usize = if dest.len() <= n {
        dest.len()
    } else {
        n
    };
    let src_len = strlen(src);
    let copy_len: usize = if src_len <= limit {
        src_len
    } else {
        limit
    };
    copy_elems(dest, 0, src, 0, copy_len);
    if copy_len < limit {
        fill_elems(dest, copy_len, limit - copy_len, 0);
    }
    limit
}

/// Copy the C string in `src` into `dest` and return the index where the
/// terminator was (or would have been) written.
pub fn stpcpy(dest: &mut [u8], src: &[u8]) -> (r: usize)
    ensures
        final(dest)@.len() == old(dest)@.len(),
        ({
            let sl = cstr_len(src@);
            let copy_len = vstd::math::min(sl, old(dest)@.len() as int);
            let terminated = copy_len < old(dest)@.len() && sl < src@.len();
            &&& r == copy_len
            &&& forall|i: int| 0 <= i < copy_len ==> final(dest)@[i] == src@[i]
            &&& terminated ==> final(dest)@[copy_len] == 0
            &&& forall|i: int|
                copy_len < i < old(dest)@.len() ==> final(dest)@[i] == old(dest)@[i]
            &&& !terminated && copy_len < old(dest)@.len() ==> final(dest)@[copy_len] == old(
                dest,
            )@[copy_len]
        }),
{
    proof {
        lemma_term_len(src@, 0u8);
    }
    let src_len = strlen(src);
    let copy_len: usize = if src_len <= dest.len() {
        src_len
    } else {
        dest.len()
    };
    copy_elems(dest, 0, src, 0, copy_len);
    if copy_len < dest.len() && src_len < src.len() {
        dest[copy_len] = 0;
    }
    copy_len
}

/// Copy at most `n` bytes of the C string in `src` into `dest`, padding
/// with null bytes, and return the index of the first null written (`n`
/// when none was).
pub fn stpncpy(dest: &mut [u8], src: &[u8], n: usize) -> (r: usize)
    ensures
        final(dest)@.len() == old(dest)@.len(),
        ({
            let limit = vstd::math::min(old(dest)@.len() as int, n as int);
            let copy_len = vstd::math::min(cstr_len(src@), limit);
            &&& r == copy_len
            &&& forall|i: int| 0 <= i < copy_len ==> final(dest)@[i] == src@[i]
            &&& forall|i: int| copy_len <= i < limit ==> final(dest)@[i] == 0
            &&& forall|i: int|
                limit <= i < old(dest)@.len() ==> final(dest)@[i] == old(dest)@[i]
        }),
{
    proof {
        lemma_term_len(src@, 0u8);
    }
    let limit: usize = if dest.len() <= n {
        dest.len()
    } else {
        n
    };
    let src_len = strlen(src);
    let copy_len: usize = if src_len <= limit {
        src_len
    } else {
        limit
    };
    copy_elems(dest, 0, src, 0, copy_len);
    if copy_len < limit {
        fill_elems(dest, copy_len, limit - copy_len, 0);
        copy_len
    } else {
        limit
    }
}

/// Append the C string in `src` to the one in `dest`, keeping one byte for
/// the terminator. Returns the length of the combined string.
pub fn strcat(dest: &mut [u8], src: &[u8]) -> (r: usize)
    ensures
        final(dest)@.len() == old(dest)@.len(),
        ({
            let dl = cstr_len(old(dest)@);
            let sl = cstr_len(src@);
            let copy_len = if dl < old(dest)@.len() {
                vstd::math::min(sl, old(dest)@.len() - dl - 1)
            } else {
                0
            };
            &&& dl >= old(dest)@.len() ==> r == dl && final(dest)@ == old(dest)@
            &&& dl < old(dest)@.len() ==> {
                &&& r == dl + copy_len
                &&& forall|i: int| 0 <= i < dl ==> final(dest)@[i] == old(dest)@[i]
                &&& forall|i: int| 0 <= i < copy_len ==> final(dest)@[dl + i] == src@[i]
                &&& final(dest)@[dl + copy_len] == 0
                &&& forall|i: int|
                    dl + copy_len < i < old(dest)@.len() ==> final(dest)@[i] == old(dest)@[i]
            }
        }),
{
    proof {
        lemma_term_len(old(dest)@, 0u8);
        lemma_term_len(src@, 0u8);
    }
    let dest_len = strlen(dest);
    let src_len = strlen(src);
    if dest_len >= dest.len() {
        return dest_len;
    }
    let remaining: usize = dest.len() - dest_len;
    let copy_len: usize = if src_len <= remaining - 1 {
        src_len
    } else {
        remaining - 1
    };
    copy_elems(dest, dest_len, src, 0, copy_len);
    dest[dest_len + copy_len] = 0;
    dest_len + copy_len
}

/// Append at most `n` bytes of `src` to the C string in `dest`, always
/// terminating the result when the destination has room.
pub fn strncat(dest: &mut [u8], src: &[u8], n: usize) -> (r: usize)
    ensures
        final(dest)@.len() == old(dest)@.len(),
        ({
            let dl = cstr_len(old(dest)@);
            let sl = vstd::math::min(cstr_len(src@), vstd::math::min(n as int, src@.len() as int));
            let copy_len = if dl < old(dest)@.len() {
                vstd::math::min(sl, old(dest)@.len() - dl - 1)
            } else {
                0
            };
            &&& dl >= old(dest)@.len() ==> r == dl && final(dest)@ == old(dest)@
            &&& dl < old(dest)@.len() ==> {
                &&& r == dl + copy_len
                &&& forall|i: int| 0 <= i < dl ==> final(dest)@[i] == old(dest)@[i]
                &&& forall|i: int| 0 <= i < copy_len ==> final(dest)@[dl + i] == src@[i]
                &&& final(dest)@[dl + copy_len] == 0
                &&& forall|i: int|
                    dl + copy_len < i < old(dest)@.len() ==> final(dest)@[i] == old(dest)@[i]
            }
        }),
{
    proof {
        lemma_term_len(old(dest)@, 0u8);
    }
    let dest_len = strlen(dest);
    let src_len = strnlen(src, n);
    if dest_len >= dest.len() {
        return dest_len;
    }
    let remaining: usize = dest.len() - dest_len;
    let copy_len: usize = if src_len <= remaining - 1 {
        src_len
    } else {
        remaining - 1
    };
    copy_elems(dest, dest_len, src, 0, copy_len);
    dest[dest_len + copy_len] = 0;
    dest_len + copy_len
}

/// Size-bounded string copy: copy up to `dest.len() - 1` bytes and always
/// terminate. Returns the source string length, so a caller detects
/// truncation by comparing the result against `dest.len()`.
pub fn strlcpy(dest: &mut [u8], src: &[u8]) -> (r: usize)
    ensures
        final(dest)@.len() == old(dest)@.len(),
        r == cstr_len(src@),
        ({
            let copy_len = if old(dest)@.len() > 0 {
                vstd::math::min(cstr_len(src@), old(dest)@.len() - 1)
            } else {
                0
            };
            &&& old(dest)@.len() == 0 ==> final(dest)@ == old(dest)@
            &&& old(dest)@.len() > 0 ==> {
                &&& forall|i: int| 0 <= i < copy_len ==> final(dest)@[i] == src@[i]
                &&& final(dest)@[copy_len] == 0
                &&& forall|i: int|
                    copy_len < i < old(dest)@.len() ==> final(dest)@[i] == old(dest)@[i]
            }
        }),
{
    proof {
        lemma_term_len(src@, 0u8);
    }
    let src_len = strlen(src);
    if dest.len() == 0 {
        return src_len;
    }
    let copy_len: usize = if src_len <= dest.len() - 1 {
        src_len
    } else {
        dest.len() - 1
    };
    copy_elems(dest, 0, src, 0, copy_len);
    dest[copy_len] = 0;
    src_len
}

/// Size-bounded string append: append `src` to the C string in `dest`,
/// always terminating. Returns the length the combined string would have
/// had without truncation.
pub fn strlcat(dest: &mut [u8], src: &[u8]) -> (r: usize)
    requires
        old(dest)@.len() + cstr_len(src@) <= usize::MAX,
    ensures
        final(dest)@.len() == old(dest)@.len(),
        ({
            let size = old(dest)@.len() as int;
            let dl = vstd::math::min(cstr_len(old(dest)@), size);
            let sl = cstr_len(src@);
            let copy_len = if dl < size {
                vstd::math::min(sl, size - dl - 1)
            } else {
                0
            };
            &&& dl >= size ==> r == size + sl && final(dest)@ == old(dest)@
            &&& dl < size ==> {
                &&& r == dl + sl
                &&& forall|i: int| 0 <= i < dl ==> final(dest)@[i] == old(dest)@[i]
                &&& forall|i: int| 0 <= i < copy_len ==> final(dest)@[dl + i] == src@[i]
                &&& final(dest)@[dl + copy_len] == 0
                &&& forall|i: int|
                    dl + copy_len < i < old(dest)@.len() ==> final(dest)@[i] == old(dest)@[i]
            }
        }),
{
    proof {
        lemma_term_len(old(dest)@, 0u8);
        lemma_term_len(src@, 0u8);
    }
    let size: usize = dest.len();
    let dest_len = strnlen(dest, size);
    let src_len = strlen(src);
    if dest_len >= size {
        return size + src_len;
    }
    let remaining: usize = size - dest_len;
    let copy_len: usize = if src_len <= remaining - 1 {
        src_len
    } else {
        remaining - 1
    };
    copy_elems(dest, dest_len, src, 0, copy_len);
    dest[dest_len + copy_len] = 0;
    dest_len + src_len
}

/// Collation transform. In the single supported locale the transform is
/// the identity, so this copies like [`strlcpy`] and returns the length of
/// the transformed string.
pub fn strxfrm(dest: &mut [u8], src: &[u8]) -> (r: usize)
    ensures
        final(dest)@.len() == old(dest)@.len(),
        r == cstr_len(src@),
        ({
            let copy_len = if old(dest)@.len() > 0 {
                vstd::math::min(cstr_len(src@), old(dest)@.len() - 1)
            } else {
                0
            };
            &&& old(dest)@.len() == 0 ==> final(dest)@ == old(dest)@
            &&& old(dest)@.len() > 0 ==> {
                &&& forall|i: int| 0 <= i < copy_len ==> final(dest)@[i] == src@[i]
                &&& final(dest)@[copy_len] == 0
                &&& forall|i: int|
                    copy_len < i < old(dest)@.len() ==> final(dest)@[i] == old(dest)@[i]
            }
        }),
{
    proof {
        lemma_term_len(src@, 0u8);
    }
    let src_len = strlen(src);
    if dest.len() == 0 {
        return src_len;
    }
    let copy_len: usize = if src_len <= dest.len() - 1 {
        src_len
    } else {
        dest.len() - 1
    };
    copy_elems(dest, 0, src, 0, copy_len);
    dest[copy_len] = 0;
    src_len
}

/// Duplicate the C string in `src` into an owned, always-terminated
/// buffer.
pub fn strdup(src: &[u8]) -> (r: Vec<u8>)
    ensures
        r@ == src@.take(cstr_len(src@)).push(0u8),
{
    proof {
        lemma_term_len(src@, 0u8);
    }
    let src_len = strlen(src);
    let mut out: Vec<u8> = Vec::new();
    let mut i: usize = 0;
    while i < src_len
        invariant
            0 <= i <= src_len,
            src_len == cstr_len(src@) <= src@.len(),
            out@ == src@.take(i as int),
        decreases src_len - i,
    {
        out.push(src[i]);
        proof {
            assert(out@ =~= src@.take(i + 1));
        }
        i = i + 1;
    }
    out.push(0);
    out
}

/// Duplicate at most `n` bytes of the C string in `src` into an owned,
/// always-terminated buffer.
pub fn strndup(src: &[u8], n: usize) -> (r: Vec<u8>)
    ensures
        r@ == src@.take(
            vstd::math::min(cstr_len(src@), vstd::math::min(n as int, src@.len() as int)),
        ).push(0u8),
{
    let copy_len = strnlen(src, n);
    let mut out: Vec<u8> = Vec::new();
    let mut i: usize = 0;
    while i < copy_len
        invariant
            0 <= i <= copy_len,
            copy_len <= src@.len(),
            copy_len == vstd::math::min(
                cstr_len(src@),
                vstd::math::min(n as int, src@.len() as int),
            ),
            out@ == src@.take(i as int),
        decreases copy_len - i,
    {
        out.push(src[i]);
        proof {
            assert(out@ =~= src@.take(i + 1));
        }
        i = i + 1;
    }
    out.push(0);
    proof {
        assert(out@ =~= src@.take(copy_len as int).push(0u8));
    }
    out
}

/// Compare the C strings in `s1` and `s2` lexicographically: signed
/// difference at the first differing byte, shorter-is-less when one is a
/// prefix of the other.
pub fn strcmp(s1: &[u8], s2: &[u8]) -> (r: i32)
    ensures
        r as int == compare_bytes(s1@.take(cstr_len(s1@)), s2@.take(cstr_len(s2@))),
{
    proof {
        lemma_term_len(s1@, 0u8);
        lemma_term_len(s2@, 0u8);
    }
    let len1 = strlen(s1);
    let len2 = strlen(s2);
    let ghost a = s1@.take(len1 as int);
    let ghost b = s2@.take(len2 as int);
    let min_len: usize = if len1 <= len2 {
        len1
    } else {
        len2
    };
    let mut i: usize = 0;
    while i < min_len
        invariant
            0 <= i <= min_len,
            len1 == cstr_len(s1@) <= s1@.len(),
            len2 == cstr_len(s2@) <= s2@.len(),
            min_len == vstd::math::min(len1 as int, len2 as int),
            a == s1@.take(len1 as int),
            b == s2@.take(len2 as int),
            forall|j: int| 0 <= j < i ==> s1@[j] == s2@[j],
        decreases min_len - i,
    {
        if s1[i] != s2[i] {
            proof {
                assert forall|j: int| 0 <= j < i implies a[j] == b[j] by {
                    assert(a[j] == s1@[j]);
                    assert(b[j] == s2@[j]);
                }
                assert(a[i as int] == s1@[i as int]);
                assert(b[i as int] == s2@[i as int]);
                lemma_compare_bytes_first_diff(a, b, i as int);
            }
            return (s1[i] as i32) - (s2[i] as i32);
        }
        i = i + 1;
    }
    proof {
        assert forall|j: int|
            0 <= j < vstd::math::min(a.len() as int, b.len() as int) implies a[j] == b[j] by {
            assert(a[j] == s1@[j]);
            assert(b[j] == s2@[j]);
        }
        lemma_compare_bytes_prefix_equal(a, b);
    }
    if len1 < len2 {
        -1
    } else if len1 == len2 {
        0
    } else {
        1
    }
}

/// Compare at most `n` bytes of the two C strings. When both strings end
/// before the bound the comparison includes the length tie-break; when
/// either string fills the bound, only the compared window decides.
pub fn strncmp(s1: &[u8], s2: &[u8], n: usize) -> (r: i32)
    ensures
        ({
            let l1 = vstd::math::min(cstr_len(s1@), vstd::math::min(n as int, s1@.len() as int));
            let l2 = vstd::math::min(cstr_len(s2@), vstd::math::min(n as int, s2@.len() as int));
            let m = vstd::math::min(l1, l2);
            if l1 < n && l2 < n {
                r as int == compare_bytes(s1@.take(l1), s2@.take(l2))
            } else {
                r as int == compare_bytes(s1@.take(m), s2@.take(m))
            }
        }),
{
    proof {
        lemma_term_len(s1@, 0u8);
        lemma_term_len(s2@, 0u8);
    }
    if n == 0 {
        proof {
            assert(s1@.take(0) =~= Seq::<u8>::empty());
            assert(s2@.take(0) =~= Seq::<u8>::empty());
        }
        return 0;
    }
    let len1 = strnlen(s1, n);
    let len2 = strnlen(s2, n);
    let ghost l1 = len1 as int;
    let ghost l2 = len2 as int;
    let min_len: usize = if len1 <= len2 {
        len1
    } else {
        len2
    };
    let mut i: usize = 0;
    while i < min_len
        invariant
            0 <= i <= min_len,
            l1 == len1 as int,
            l2 == len2 as int,
            l1 == vstd::math::min(cstr_len(s1@), vstd::math::min(n as int, s1@.len() as int)),
            l2 == vstd::math::min(cstr_len(s2@), vstd::math::min(n as int, s2@.len() as int)),
            len1 <= s1@.len(),
            len2 <= s2@.len(),
            min_len == vstd::math::min(l1, l2),
            forall|j: int| 0 <= j < i ==> s1@[j] == s2@[j],
        decreases min_len - i,
    {
        if s1[i] != s2[i] {
            proof {
                assert forall|j: int| 0 <= j < i implies s1@.take(l1)[j] == s2@.take(l2)[j] by {
                    assert(s1@.take(l1)[j] == s1@[j]);
                    assert(s2@.take(l2)[j] == s2@[j]);
                }
                assert(s1@.take(l1)[i as int] == s1@[i as int]);
                assert(s2@.take(l2)[i as int] == s2@[i as int]);
                lemma_compare_bytes_first_diff(s1@.take(l1), s2@.take(l2), i as int);
                let m = vstd::math::min(l1, l2);
                assert forall|j: int| 0 <= j < i implies s1@.take(m)[j] == s2@.take(m)[j] by {
                    assert(s1@.take(m)[j] == s1@[j]);
                    assert(s2@.take(m)[j] == s2@[j]);
                }
                assert(s1@.take(m)[i as int] == s1@[i as int]);
                assert(s2@.take(m)[i as int] == s2@[i as int]);
                lemma_compare_bytes_first_diff(s1@.take(m), s2@.take(m), i as int);
            }
            return (s1[i] as i32) - (s2[i] as i32);
        }
        i = i + 1;
    }
    proof {
        let m = vstd::math::min(l1, l2);
        assert forall|j: int|
            0 <= j < vstd::math::min(
                s1@.take(l1).len() as int,
                s2@.take(l2).len() as int,
            ) implies s1@.take(l1)[j] == s2@.take(l2)[j] by {
            assert(s1@.take(l1)[j] == s1@[j]);
            assert(s2@.take(l2)[j] == s2@[j]);
        }
        lemma_compare_bytes_prefix_equal(s1@.take(l1), s2@.take(l2));
        assert forall|j: int|
            0 <= j < vstd::math::min(
                s1@.take(m).len() as int,
                s2@.take(m).len() as int,
            ) implies s1@.take(m)[j] == s2@.take(m)[j] by {
            assert(s1@.take(m)[j] == s1@[j]);
            assert(s2@.take(m)[j] == s2@[j]);
        }
        lemma_compare_bytes_prefix_equal(s1@.take(m), s2@.take(m));
    }
    if len1 < n && len2 < n {
        if len1 < len2 {
            -1
        } else if len1 == len2 {
            0
        } else {
            1
        }
    } else {
        0
    }
}

/// Compare using locale collation. In the single supported locale this is
/// [`strcmp`].
pub fn strcoll(s1: &[u8], s2: &[u8]) -> (r: i32)
    ensures
        r as int == compare_bytes(s1@.take(cstr_len(s1@)), s2@.take(cstr_len(s2@))),
{
    strcmp(s1, s2)
}

/// Compare the C strings ignoring ASCII case: [`strcmp`] over the
/// lower-cased strings, except that the tie-break is the sign only.
pub fn strcasecmp(s1: &[u8], s2: &[u8]) -> (r: i32)
    ensures
        r as int == compare_bytes(
            lower_bytes(s1@.take(cstr_len(s1@))),
            lower_bytes(s2@.take(cstr_len(s2@))),
        ),
{
    proof {
        lemma_term_len(s1@, 0u8);
        lemma_term_len(s2@, 0u8);
    }
    let len1 = strlen(s1);
    let len2 = strlen(s2);
    let ghost a = lower_bytes(s1@.take(len1 as int));
    let ghost b = lower_bytes(s2@.take(len2 as int));
    let min_len: usize = if len1 <= len2 {
        len1
    } else {
        len2
    };
    let mut i: usize = 0;
    while i < min_len
        invariant
            0 <= i <= min_len,
            len1 == cstr_len(s1@) <= s1@.len(),
            len2 == cstr_len(s2@) <= s2@.len(),
            min_len == vstd::math::min(len1 as int, len2 as int),
            a == lower_bytes(s1@.take(len1 as int)),
            b == lower_bytes(s2@.take(len2 as int)),
            forall|j: int| 0 <= j < i ==> lower_byte(s1@[j]) == lower_byte(s2@[j]),
        decreases min_len - i,
    {
        let c1 = to_lower_ascii(s1[i]);
        let c2 = to_lower_ascii(s2[i]);
        if c1 != c2 {
            proof {
                assert forall|j: int| 0 <= j < i implies a[j] == b[j] by {
                    assert(a[j] == lower_byte(s1@.take(len1 as int)[j]));
                    assert(b[j] == lower_byte(s2@.take(len2 as int)[j]));
                }
                assert(a[i as int] == lower_byte(s1@.take(len1 as int)[i as int]));
                assert(b[i as int] == lower_byte(s2@.take(len2 as int)[i as int]));
                lemma_compare_bytes_first_diff(a, b, i as int);
            }
            return (c1 as i32) - (c2 as i32);
        }
        i = i + 1;
    }
    proof {
        assert forall|j: int|
            0 <= j < vstd::math::min(a.len() as int, b.len() as int) implies a[j] == b[j] by {
            assert(a[j] == lower_byte(s1@.take(len1 as int)[j]));
            assert(b[j] == lower_byte(s2@.take(len2 as int)[j]));
        }
        lemma_compare_bytes_prefix_equal(a, b);
    }
    if len1 < len2 {
        -1
    } else if len1 == len2 {
        0
    } else {
        1
    }
}

/// Compare at most `n` bytes of the two C strings ignoring ASCII case,
/// with the same bounded tie-break rule as [`strncmp`].
pub fn strncasecmp(s1: &[u8], s2: &[u8], n: usize) -> (r: i32)
    ensures
        ({
            let l1 = vstd::math::min(cstr_len(s1@), vstd::math::min(n as int, s1@.len() as int));
            let l2 = vstd::math::min(cstr_len(s2@), vstd::math::min(n as int, s2@.len() as int));
            let m = vstd::math::min(l1, l2);
            if l1 < n && l2 < n {
                r as int == compare_bytes(lower_bytes(s1@.take(l1)), lower_bytes(s2@.take(l2)))
            } else {
                r as int == compare_bytes(lower_bytes(s1@.take(m)), lower_bytes(s2@.take(m)))
            }
        }),
{
    proof {
        lemma_term_len(s1@, 0u8);
        lemma_term_len(s2@, 0u8);
    }
    if n == 0 {
        proof {
            assert(s1@.take(0) =~= Seq::<u8>::empty());
            assert(s2@.take(0) =~= Seq::<u8>::empty());
            assert(lower_bytes(s1@.take(0)) =~= Seq::<u8>::empty());
            assert(lower_bytes(s2@.take(0)) =~= Seq::<u8>::empty());
        }
        return 0;
    }
    let len1 = strnlen(s1, n);
    let len2 = strnlen(s2, n);
    let ghost l1 = len1 as int;
    let ghost l2 = len2 as int;
    let min_len: usize = if len1 <= len2 {
        len1
    } else {
        len2
    };
    let mut i: usize = 0;
    while i < min_len
        invariant
            0 <= i <= min_len,
            l1 == len1 as int,
            l2 == len2 as int,
            l1 == vstd::math::min(cstr_len(s1@), vstd::math::min(n as int, s1@.len() as int)),
            l2 == vstd::math::min(cstr_len(s2@), vstd::math::min(n as int, s2@.len() as int)),
            len1 <= s1@.len(),
            len2 <= s2@.len(),
            min_len == vstd::math::min(l1, l2),
            forall|j: int| 0 <= j < i ==> lower_byte(s1@[j]) == lower_byte(s2@[j]),
        decreases min_len - i,
    {
        let c1 = to_lower_ascii(s1[i]);
        let c2 = to_lower_ascii(s2[i]);
        if c1 != c2 {
            proof {
                let m = vstd::math::min(l1, l2);
                assert forall|j: int|
                    0 <= j < i implies lower_bytes(s1@.take(l1))[j] == lower_bytes(
                    s2@.take(l2),
                )[j] by {
                    assert(lower_bytes(s1@.take(l1))[j] == lower_byte(s1@.take(l1)[j]));
                    assert(lower_bytes(s2@.take(l2))[j] == lower_byte(s2@.take(l2)[j]));
                }
                assert(lower_bytes(s1@.take(l1))[i as int] == lower_byte(
                    s1@.take(l1)[i as int],
                ));
                assert(lower_bytes(s2@.take(l2))[i as int] == lower_byte(
                    s2@.take(l2)[i as int],
                ));
                lemma_compare_bytes_first_diff(
                    lower_bytes(s1@.take(l1)),
                    lower_bytes(s2@.take(l2)),
                    i as int,
                );
                assert forall|j: int|
                    0 <= j < i implies lower_bytes(s1@.take(m))[j] == lower_bytes(
                    s2@.take(m),
                )[j] by {
                    assert(lower_bytes(s1@.take(m))[j] == lower_byte(s1@.take(m)[j]));
                    assert(lower_bytes(s2@.take(m))[j] == lower_byte(s2@.take(m)[j]));
                }
                assert(lower_bytes(s1@.take(m))[i as int] == lower_byte(s1@.take(m)[i as int]));
                assert(lower_bytes(s2@.take(m))[i as int] == lower_byte(s2@.take(m)[i as int]));
                lemma_compare_bytes_first_diff(
                    lower_bytes(s1@.take(m)),
                    lower_bytes(s2@.take(m)),
                    i as int,
                );
            }
            return (c1 as i32) - (c2 as i32);
        }
        i = i + 1;
    }
    proof {
        let m = vstd::math::min(l1, l2);
        assert forall|j: int|
            0 <= j < vstd::math::min(
                lower_bytes(s1@.take(l1)).len() as int,
                lower_bytes(s2@.take(l2)).len() as int,
            ) implies lower_bytes(s1@.take(l1))[j] == lower_bytes(s2@.take(l2))[j] by {
            assert(lower_bytes(s1@.take(l1))[j] == lower_byte(s1@.take(l1)[j]));
            assert(lower_bytes(s2@.take(l2))[j] == lower_byte(s2@.take(l2)[j]));
        }
        lemma_compare_bytes_prefix_equal(lower_bytes(s1@.take(l1)), lower_bytes(s2@.take(l2)));
        assert forall|j: int|
            0 <= j < vstd::math::min(
                lower_bytes(s1@.take(m)).len() as int,
                lower_bytes(s2@.take(m)).len() as int,
            ) implies lower_bytes(s1@.take(m))[j] == lower_bytes(s2@.take(m))[j] by {
            assert(lower_bytes(s1@.take(m))[j] == lower_byte(s1@.take(m)[j]));
            assert(lower_bytes(s2@.take(m))[j] == lower_byte(s2@.take(m)[j]));
        }
        lemma_compare_bytes_prefix_equal(lower_bytes(s1@.take(m)), lower_bytes(s2@.take(m)));
    }
    if len1 < n && len2 < n {
        if len1 < len2 {
            -1
        } else if len1 == len2 {
            0
        } else {
            1
        }
    } else {
        0
    }
}

/// Byte of `s` at `i`, padded with null bytes past the end: the view a
/// C-string scan has of a terminated buffer.
pub open spec fn byte_at(s: Seq<u8>, i: int) -> u8 {
    if 0 <= i < s.len() {
        s[i]
    } else {
        0
    }
}

/// `c` is an ASCII decimal digit.
pub open spec fn is_digit_byte(c: u8) -> bool {
    48 <= c <= 57
}

/// `c` is an ASCII digit other than `'0'`.
pub open spec fn is_nonzero_digit(c: u8) -> bool {
    49 <= c <= 57
}

/// The digit distance from `'0'`, computed with wraparound so that bytes
/// below `'0'` land high: the value the fractional-part comparison uses.
pub open spec fn digit_wrap(c: u8) -> int {
    (c + 208) % 256
}

/// First index at or after `i` where the two padded strings differ or both
/// hit a null byte: where a version comparison stops scanning.
pub open spec fn vers_stop(a: Seq<u8>, b: Seq<u8>, i: int) -> int
    recommends
        0 <= i,
    decreases vstd::math::max(a.len() as int, b.len() as int) - i,
{
    if i >= vstd::math::max(a.len() as int, b.len() as int) || byte_at(a, i) != byte_at(b, i)
        || byte_at(a, i) == 0 {
        i
    } else {
        vers_stop(a, b, i + 1)
    }
}

/// Start of the digit run that ends at (or crosses) position `s`: the
/// smallest index `d <= s` such that everything in `[d, s)` is a digit and
/// the byte before `d` (if any) is not.
pub open spec fn digit_run_start(a: Seq<u8>, s: int) -> int
    decreases s,
{
    if s <= 0 {
        0
    } else if !is_digit_byte(byte_at(a, s - 1)) {
        s
    } else {
        digit_run_start(a, s - 1)
    }
}

/// First index at or after `i` whose padded byte is not a digit: where the
/// digit run through `i` ends.
pub open spec fn digit_run_end(a: Seq<u8>, i: int) -> int
    recommends
        0 <= i,
    decreases a.len() as int - i,
{
    if i >= a.len() || !is_digit_byte(byte_at(a, i)) {
        i
    } else {
        digit_run_end(a, i + 1)
    }
}

/// Every padded byte of `a` in `[from, to)` is the digit `'0'`.
pub open spec fn all_zero_digits(a: Seq<u8>, from: int, to: int) -> bool {
    forall|j: int| from <= j < to ==> byte_at(a, j) == 48
}

/// Version-aware string comparison: the decision rule applied once the
/// common prefix has been scanned. Digit runs starting with a nonzero
/// digit on both sides compare as integers (a longer run of digits is a
/// larger number); a differing digit reached through a run of zeros
/// compares fractionally; anything else compares as plain bytes.
pub open spec fn strverscmp_spec(a: Seq<u8>, b: Seq<u8>) -> int {
    let s = vers_stop(a, b, 0);
    let c1 = byte_at(a, s);
    let c2 = byte_at(b, s);
    if c1 == c2 {
        0
    } else {
        let dp = digit_run_start(a, s);
        if is_nonzero_digit(byte_at(a, dp)) && is_nonzero_digit(byte_at(b, dp)) {
            let e1 = digit_run_end(a, s);
            let e2 = digit_run_end(b, s);
            if e2 < e1 {
                1
            } else if e1 < e2 {
                -1
            } else {
                c1 - c2
            }
        } else if all_zero_digits(a, dp, s) && dp < s && (is_digit_byte(c1) || is_digit_byte(c2)) {
            digit_wrap(c1) - digit_wrap(c2)
        } else {
            c1 - c2
        }
    }
}

proof fn lemma_vers_stop_is(a: Seq<u8>, b: Seq<u8>, k: int, i: int)
    requires
        0 <= k <= i,
        forall|j: int| k <= j < i ==> byte_at(a, j) == byte_at(b, j) && byte_at(a, j) != 0,
        i >= vstd::math::max(a.len() as int, b.len() as int) || byte_at(a, i) != byte_at(b, i)
            || byte_at(a, i) == 0,
    ensures
        vers_stop(a, b, k) == i,
    decreases i - k,
{
    if k < i {
        assert(byte_at(a, k) == byte_at(b, k) && byte_at(a, k) != 0);
        assert(k < vstd::math::max(a.len() as int, b.len() as int));
        lemma_vers_stop_is(a, b, k + 1, i);
    }
}

proof fn lemma_digit_run_end_is(a: Seq<u8>, k: int, i: int)
    requires
        0 <= k <= i,
        forall|j: int| k <= j < i ==> is_digit_byte(byte_at(a, j)),
        i >= a.len() || !is_digit_byte(byte_at(a, i)),
    ensures
        digit_run_end(a, k) == i,
    decreases i - k,
{
    if k < i {
        assert(is_digit_byte(byte_at(a, k)));
        assert(k < a.len());
        lemma_digit_run_end_is(a, k + 1, i);
    }
}

proof fn lemma_digit_run_end_lb(a: Seq<u8>, k: int)
    requires
        0 <= k,
    ensures
        digit_run_end(a, k) >= k,
    decreases a.len() as int - k,
{
    if k < a.len() && is_digit_byte(byte_at(a, k)) {
        lemma_digit_run_end_lb(a, k + 1);
    }
}

proof fn lemma_digit_run_end_ge(a: Seq<u8>, k: int, j: int)
    requires
        0 <= k <= j,
        forall|m: int| k <= m <= j ==> is_digit_byte(byte_at(a, m)),
    ensures
        digit_run_end(a, k) > j,
    decreases j - k,
{
    assert(is_digit_byte(byte_at(a, k)));
    assert(k < a.len());
    if k < j {
        lemma_digit_run_end_ge(a, k + 1, j);
    } else {
        lemma_digit_run_end_lb(a, k + 1);
    }
}

/// Padded byte access: `s[i]`, or 0 past the end.
fn padded_byte(s: &[u8], i: usize) -> (r: u8)
    ensures
        r == byte_at(s@, i as int),
{
    if i < s.len() {
        s[i]
    } else {
        0
    }
}

/// `c` is an ASCII decimal digit.
fn is_digit(c: u8) -> (r: bool)
    ensures
        r == is_digit_byte(c),
{
    c >= 48 && c <= 57
}

/// Compare two version strings: digit runs order numerically (`"a2"`
/// before `"a10"`), runs of leading zeros order fractionally (`"a01"`
/// before `"a1"`), and everything else orders byte-wise.
pub fn strverscmp(s1: &[u8], s2: &[u8]) -> (r: i32)
    ensures
        r as int == strverscmp_spec(s1@, s2@),
{
    proof {
        vstd::slice::axiom_spec_len(s1);
        vstd::slice::axiom_spec_len(s2);
    }
    let mut i: usize = 0;
    let mut dp: usize = 0;
    let mut zeros: bool = true;
    loop
        invariant
            0 <= dp <= i,
            i <= s1@.len() || i <= s2@.len(),
            s1@.len() <= usize::MAX,
            s2@.len() <= usize::MAX,
            forall|j: int| 0 <= j < i ==> byte_at(s1@, j) == byte_at(s2@, j),
            forall|j: int| 0 <= j < i ==> byte_at(s1@, j) != 0,
            dp == digit_run_start(s1@, i as int),
            zeros == all_zero_digits(s1@, dp as int, i as int),
        ensures
            0 <= dp <= i,
            i <= s1@.len() || i <= s2@.len(),
            byte_at(s1@, i as int) != byte_at(s2@, i as int),
            forall|j: int| 0 <= j < i ==> byte_at(s1@, j) == byte_at(s2@, j),
            forall|j: int| 0 <= j < i ==> byte_at(s1@, j) != 0,
            dp == digit_run_start(s1@, i as int),
            zeros == all_zero_digits(s1@, dp as int, i as int),
        decreases vstd::math::max(s1@.len() as int, s2@.len() as int) - i,
    {
        let c1 = padded_byte(s1, i);
        let c2 = padded_byte(s2, i);
        if c1 != c2 {
            break;
        }
        if c1 == 0 {
            proof {
                lemma_vers_stop_is(s1@, s2@, 0, i as int);
            }
            return 0;
        }
        proof {
            assert(byte_at(s1@, i as int) != 0);
            assert(i < s1@.len());
        }
        if !is_digit(c1) {
            dp = i + 1;
            zeros = true;
        } else if c1 != 48 {
            zeros = false;
            proof {
                assert(!all_zero_digits(s1@, dp as int, i + 1));
            }
        } else {
            proof {
                if zeros {
                    assert forall|j: int| dp <= j < i + 1 implies byte_at(s1@, j) == 48 by {}
                } else {
                    assert(!all_zero_digits(s1@, dp as int, i + 1));
                }
            }
        }
        proof {
            if is_digit_byte(c1) {
                assert(digit_run_start(s1@, i + 1) == digit_run_start(s1@, i as int));
            }
        }
        i = i + 1;
    }
    proof {
        lemma_vers_stop_is(s1@, s2@, 0, i as int);
    }
    let ghost s = i as int;
    let c1 = padded_byte(s1, i);
    let c2 = padded_byte(s2, i);
    let dp_c1 = padded_byte(s1, dp);
    let dp_c2 = padded_byte(s2, dp);

    if dp_c1 >= 49 && dp_c1 <= 57 && dp_c2 >= 49 && dp_c2 <= 57 {
        let mut j: usize = i;
        loop
            invariant
                i <= j,
                i as int == s,
                s1@.len() <= usize::MAX,
                s2@.len() <= usize::MAX,
                vers_stop(s1@, s2@, 0) == s,
                byte_at(s1@, s) != byte_at(s2@, s),
                dp == digit_run_start(s1@, s),
                is_nonzero_digit(byte_at(s1@, dp as int)),
                is_nonzero_digit(byte_at(s2@, dp as int)),
                j == i || j <= s1@.len(),
                j <= vstd::math::max(s1@.len() as int, s2@.len() as int),
                forall|k: int| s <= k < j ==> is_digit_byte(byte_at(s1@, k)),
                forall|k: int| s <= k < j ==> is_digit_byte(byte_at(s2@, k)),
            ensures
                i <= j,
                digit_run_end(s1@, s) == j as int,
                forall|k: int| s <= k < j ==> is_digit_byte(byte_at(s2@, k)),
            decreases vstd::math::max(s1@.len() as int, s2@.len() as int) - j,
        {
            let lj = padded_byte(s1, j);
            let rj = padded_byte(s2, j);
            if !is_digit(lj) {
                proof {
                    lemma_digit_run_end_is(s1@, s, j as int);
                }
                break;
            }
            if !is_digit(rj) {
                proof {
                    lemma_digit_run_end_is(s2@, s, j as int);
                    lemma_digit_run_end_ge(s1@, s, j as int);
                }
                return 1;
            }
            proof {
                assert(is_digit_byte(byte_at(s1@, j as int)));
                assert(j < s1@.len());
            }
            j = j + 1;
        }
        let next = padded_byte(s2, j);
        if next >= 48 && next <= 57 {
            proof {
                lemma_digit_run_end_ge(s2@, s, j as int);
            }
            return -1;
        }
        proof {
            lemma_digit_run_end_is(s2@, s, j as int);
        }
        return (c1 as i32) - (c2 as i32);
    }

    if zeros && dp < i {
        let d1 = c1 >= 48 && c1 <= 57;
        let d2 = c2 >= 48 && c2 <= 57;
        if d1 || d2 {
            let l: i32 = if c1 >= 48 {
                (c1 - 48) as i32
            } else {
                (c1 as i32) + 208
            };
            let r: i32 = if c2 >= 48 {
                (c2 - 48) as i32
            } else {
                (c2 as i32) + 208
            };
            return l - r;
        }
    }

    (c1 as i32) - (c2 as i32)
}

} // verus!
