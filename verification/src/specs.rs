//! Mathematical models shared by the engines: terminator-bounded length,
//! lexicographic comparison, and substring matching, together with the
//! lemmas that characterize them.

use vstd::prelude::*;

verus! {

/// Index of the first occurrence of `z` in `s`, or `s.len()` when `z` is absent.
///
/// This models the length of a terminated string: the count of elements
/// before the terminator.
pub open spec fn term_len<T>(s: Seq<T>, z: T) -> int
    decreases s.len(),
{
    if s.len() == 0 {
        0
    } else if s[0] == z {
        0
    } else {
        1 + term_len(s.skip(1), z)
    }
}

/// `term_len` is the index of the first terminator: everything before it
/// differs from `z`, and the element there (when inside the span) equals `z`.
pub proof fn lemma_term_len<T>(s: Seq<T>, z: T)
    ensures
        0 <= term_len(s, z) <= s.len(),
        forall|j: int| 0 <= j < term_len(s, z) ==> s[j] != z,
        term_len(s, z) < s.len() ==> s[term_len(s, z)] == z,
    decreases s.len(),
{
    if s.len() > 0 && s[0] != z {
        lemma_term_len(s.skip(1), z);
        assert forall|j: int| 0 <= j < term_len(s, z) implies s[j] != z by {
            if j > 0 {
                assert(s.skip(1)[j - 1] == s[j]);
            }
        }
        if term_len(s, z) < s.len() {
            assert(s.skip(1)[term_len(s, z) - 1] == s[term_len(s, z)]);
        }
    }
}

/// Truncating a sequence caps its terminated length at the truncation point.
pub proof fn lemma_term_len_take<T>(s: Seq<T>, z: T, k: int)
    requires
        0 <= k <= s.len(),
    ensures
        term_len(s.take(k), z) == if term_len(s, z) <= k {
            term_len(s, z)
        } else {
            k
        },
    decreases s.len(),
{
    lemma_term_len(s, z);
    if s.len() == 0 || k == 0 {
        assert(s.take(k) =~= Seq::<T>::empty());
    } else if s[0] == z {
        assert(s.take(k)[0] == z);
    } else {
        assert(s.take(k)[0] == s[0]);
        lemma_term_len_take(s.skip(1), z, k - 1);
        assert(s.take(k).skip(1) =~= s.skip(1).take(k - 1));
    }
}

/// Any index below `term_len` where the element equals `z` is impossible,
/// stated positively: `term_len` over a prefix of all-nonzero elements plus
/// a terminator lands exactly on the terminator.
pub proof fn lemma_term_len_is_first<T>(s: Seq<T>, z: T, i: int)
    requires
        0 <= i <= s.len(),
        forall|j: int| 0 <= j < i ==> s[j] != z,
        i < s.len() ==> s[i] == z,
    ensures
        term_len(s, z) == i,
    decreases s.len(),
{
    if s.len() > 0 && s[0] != z {
        assert forall|j: int| 0 <= j < i - 1 implies s.skip(1)[j] != z by {
            assert(s.skip(1)[j] == s[j + 1]);
        }
        if i - 1 < s.len() - 1 {
            assert(s.skip(1)[i - 1] == s[i]);
        }
        lemma_term_len_is_first(s.skip(1), z, i - 1);
    }
}

/// Lexicographic comparison of byte spans, returning the signed difference
/// of the first differing pair, and falling back to a length comparison
/// (shorter is less) when one span is a prefix of the other.
pub open spec fn compare_bytes(a: Seq<u8>, b: Seq<u8>) -> int
    decreases a.len() + b.len(),
{
    if a.len() == 0 && b.len() == 0 {
        0
    } else if a.len() == 0 {
        -1
    } else if b.len() == 0 {
        1
    } else if a[0] != b[0] {
        a[0] - b[0]
    } else {
        compare_bytes(a.skip(1), b.skip(1))
    }
}

/// Lexicographic comparison of wide-character spans; the result carries the
/// sign only (`-1`, `0` or `1`).
pub open spec fn compare_wide(a: Seq<i32>, b: Seq<i32>) -> int
    decreases a.len() + b.len(),
{
    if a.len() == 0 && b.len() == 0 {
        0
    } else if a.len() == 0 {
        -1
    } else if b.len() == 0 {
        1
    } else if a[0] != b[0] {
        if a[0] < b[0] {
            -1
        } else {
            1
        }
    } else {
        compare_wide(a.skip(1), b.skip(1))
    }
}

/// A comparison is zero exactly when the spans are equal.
pub proof fn lemma_compare_bytes_eq(a: Seq<u8>, b: Seq<u8>)
    ensures
        compare_bytes(a, b) == 0 <==> a == b,
    decreases a.len() + b.len(),
{
    if a.len() > 0 && b.len() > 0 && a[0] == b[0] {
        lemma_compare_bytes_eq(a.skip(1), b.skip(1));
        if a.skip(1) == b.skip(1) {
            assert forall|i: int| 0 <= i < a.len() implies a[i] == b[i] by {
                if i > 0 {
                    assert(a.skip(1)[i - 1] == a[i]);
                    assert(b.skip(1)[i - 1] == b[i]);
                }
            }
            assert(a =~= b);
        }
        if a == b {
            assert(a.skip(1) =~= b.skip(1));
        }
    } else {
        if compare_bytes(a, b) == 0 {
            assert(a =~= b);
        }
    }
}

/// When the spans agree strictly before `i` and differ at `i`, the
/// comparison is decided there: it returns the signed difference at `i`.
pub proof fn lemma_compare_bytes_first_diff(a: Seq<u8>, b: Seq<u8>, i: int)
    requires
        0 <= i < a.len(),
        i < b.len(),
        forall|j: int| 0 <= j < i ==> a[j] == b[j],
        a[i] != b[i],
    ensures
        compare_bytes(a, b) == a[i] - b[i],
    decreases i,
{
    if i > 0 {
        assert forall|j: int| 0 <= j < i - 1 implies a.skip(1)[j] == b.skip(1)[j] by {
            assert(a.skip(1)[j] == a[j + 1]);
            assert(b.skip(1)[j] == b[j + 1]);
        }
        assert(a.skip(1)[i - 1] == a[i]);
        assert(b.skip(1)[i - 1] == b[i]);
        lemma_compare_bytes_first_diff(a.skip(1), b.skip(1), i - 1);
    }
}

/// When the spans agree on their whole common prefix, the comparison is the
/// length comparison: shorter is less.
pub proof fn lemma_compare_bytes_prefix_equal(a: Seq<u8>, b: Seq<u8>)
    requires
        forall|j: int| 0 <= j < vstd::math::min(a.len() as int, b.len() as int) ==> a[j] == b[j],
    ensures
        compare_bytes(a, b) == if a.len() == b.len() {
            0
        } else if a.len() < b.len() {
            -1
        } else {
            1
        },
    decreases a.len() + b.len(),
{
    if a.len() > 0 && b.len() > 0 {
        assert(a[0] == b[0]);
        assert forall|j: int|
            0 <= j < vstd::math::min(a.skip(1).len() as int, b.skip(1).len() as int) implies a.skip(
            1,
        )[j] == b.skip(1)[j] by {
            assert(a.skip(1)[j] == a[j + 1]);
            assert(b.skip(1)[j] == b[j + 1]);
        }
        lemma_compare_bytes_prefix_equal(a.skip(1), b.skip(1));
    }
}

/// Wide analogue of [`lemma_compare_bytes_first_diff`]: the sign of the
/// first differing pair decides the comparison.
pub proof fn lemma_compare_wide_first_diff(a: Seq<i32>, b: Seq<i32>, i: int)
    requires
        0 <= i < a.len(),
        i < b.len(),
        forall|j: int| 0 <= j < i ==> a[j] == b[j],
        a[i] != b[i],
    ensures
        compare_wide(a, b) == if a[i] < b[i] {
            -1int
        } else {
            1int
        },
    decreases i,
{
    if i > 0 {
        assert forall|j: int| 0 <= j < i - 1 implies a.skip(1)[j] == b.skip(1)[j] by {
            assert(a.skip(1)[j] == a[j + 1]);
            assert(b.skip(1)[j] == b[j + 1]);
        }
        assert(a.skip(1)[i - 1] == a[i]);
        assert(b.skip(1)[i - 1] == b[i]);
        lemma_compare_wide_first_diff(a.skip(1), b.skip(1), i - 1);
    }
}

/// Wide analogue of [`lemma_compare_bytes_prefix_equal`].
pub proof fn lemma_compare_wide_prefix_equal(a: Seq<i32>, b: Seq<i32>)
    requires
        forall|j: int| 0 <= j < vstd::math::min(a.len() as int, b.len() as int) ==> a[j] == b[j],
    ensures
        compare_wide(a, b) == if a.len() == b.len() {
            0
        } else if a.len() < b.len() {
            -1
        } else {
            1
        },
    decreases a.len() + b.len(),
{
    if a.len() > 0 && b.len() > 0 {
        assert(a[0] == b[0]);
        assert forall|j: int|
            0 <= j < vstd::math::min(a.skip(1).len() as int, b.skip(1).len() as int) implies a.skip(
            1,
        )[j] == b.skip(1)[j] by {
            assert(a.skip(1)[j] == a[j + 1]);
            assert(b.skip(1)[j] == b[j + 1]);
        }
        lemma_compare_wide_prefix_equal(a.skip(1), b.skip(1));
    }
}

/// `needle` occurs in `haystack` starting at index `i`.
pub open spec fn match_at<T>(haystack: Seq<T>, needle: Seq<T>, i: int) -> bool {
    0 <= i && i + needle.len() <= haystack.len() && haystack.subrange(i, i + needle.len())
        == needle
}

/// ASCII lower-casing of a single byte.
pub open spec fn lower_byte(c: u8) -> u8 {
    if 65 <= c <= 90 {
        (c + 32) as u8
    } else {
        c
    }
}

/// ASCII lower-casing of a single wide character.
pub open spec fn lower_wide(c: i32) -> i32 {
    if 65 <= c <= 90 {
        (c + 32) as i32
    } else {
        c
    }
}

/// The naive reference semantics of an overlap-safe move: the result of
/// copying `s[src..src + n]` into a temporary buffer and writing it back
/// at `dest`, so every source element is read before any destination
/// element in its path is overwritten.
pub open spec fn seq_move<T>(s: Seq<T>, dest: int, src: int, n: int) -> Seq<T> {
    Seq::new(
        s.len(),
        |i: int|
            if dest <= i < dest + n {
                s[src + (i - dest)]
            } else {
                s[i]
            },
    )
}

/// First index at or after `i` whose element is not in `set`, or `s.len()`
/// when everything from `i` on is: where skipping over delimiters stops.
pub open spec fn scan_in<T>(s: Seq<T>, set: Seq<T>, i: int) -> int
    recommends
        0 <= i <= s.len(),
    decreases s.len() as int - i,
{
    if i < 0 || i >= s.len() {
        s.len() as int
    } else if !set.contains(s[i]) {
        i
    } else {
        scan_in(s, set, i + 1)
    }
}

/// First index at or after `i` whose element is in `set`, or `s.len()`:
/// where a token ends.
pub open spec fn scan_not_in<T>(s: Seq<T>, set: Seq<T>, i: int) -> int
    recommends
        0 <= i <= s.len(),
    decreases s.len() as int - i,
{
    if i < 0 || i >= s.len() {
        s.len() as int
    } else if set.contains(s[i]) {
        i
    } else {
        scan_not_in(s, set, i + 1)
    }
}

/// A position preceded (from `k`) only by set members, and itself not a
/// member (or the end), is where `scan_in` stops.
pub proof fn lemma_scan_in_is<T>(s: Seq<T>, set: Seq<T>, k: int, i: int)
    requires
        0 <= k <= i <= s.len(),
        forall|j: int| k <= j < i ==> set.contains(s[j]),
        i < s.len() ==> !set.contains(s[i]),
    ensures
        scan_in(s, set, k) == i,
    decreases i - k,
{
    if k < i {
        lemma_scan_in_is(s, set, k + 1, i);
    }
}

/// A position preceded (from `k`) only by non-members, and itself a member
/// (or the end), is where `scan_not_in` stops.
pub proof fn lemma_scan_not_in_is<T>(s: Seq<T>, set: Seq<T>, k: int, i: int)
    requires
        0 <= k <= i <= s.len(),
        forall|j: int| k <= j < i ==> !set.contains(s[j]),
        i < s.len() ==> set.contains(s[i]),
    ensures
        scan_not_in(s, set, k) == i,
    decreases i - k,
{
    if k < i {
        lemma_scan_not_in_is(s, set, k + 1, i);
    }
}

} // verus!
