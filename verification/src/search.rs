//! C-string search: character search, substring search, and
//! accept/reject-set spans, all over the null-terminated prefix of a byte
//! slice.

use vstd::prelude::*;

use crate::mem::{memchr, memmem, memrchr};
use crate::specs::{lemma_term_len, lemma_term_len_is_first, lower_byte, match_at, term_len};
use crate::strings::{cstr_len, lower_bytes, strlen};

verus! {

broadcast use vstd::slice::group_slice_axioms;

/// The slice window a character search covers: the C string plus its
/// terminator when the needle is the terminator itself is searchable, so
/// searching for 0 scans the whole slice, anything else scans the string
/// and its terminator.
pub open spec fn strchr_window(s: Seq<u8>, c: u8) -> int {
    if c == 0 {
        s.len() as int
    } else {
        vstd::math::min(cstr_len(s) + 1, s.len() as int)
    }
}

/// Index of the first occurrence of `c` in the C string held in `s` (the
/// terminator itself can be found), or `None`.
pub fn strchr(s: &[u8], c: u8) -> (r: Option<usize>)
    ensures
        ({
            let w = strchr_window(s@, c);
            match r {
                Some(i) => i < w && s@[i as int] == c && forall|j: int| 0 <= j < i ==> s@[j] != c,
                None => forall|j: int| 0 <= j < w ==> s@[j] != c,
            }
        }),
{
    proof {
        lemma_term_len(s@, 0u8);
    }
    let len: usize = if c == 0 {
        s.len()
    } else {
        let sl = strlen(s);
        if sl < s.len() {
            sl + 1
        } else {
            s.len()
        }
    };
    let window = vstd::slice::slice_subrange(s, 0, len);
    proof {
        assert(window@ =~= s@.take(len as int));
    }
    let r = memchr(window, c);
    proof {
        match r {
            Some(i) => {
                assert(window@[i as int] == s@[i as int]);
                assert forall|j: int| 0 <= j < i implies s@[j] != c by {
                    assert(window@[j] == s@[j]);
                }
            },
            None => {
                assert forall|j: int| 0 <= j < len implies s@[j] != c by {
                    assert(window@[j] == s@[j]);
                }
            },
        }
    }
    r
}

/// Index of the first occurrence of `c` in the C string, or the string
/// length when `c` does not occur.
pub fn strchrnul(s: &[u8], c: u8) -> (r: usize)
    ensures
        r == term_len(s@.take(cstr_len(s@)), c),
{
    proof {
        lemma_term_len(s@, 0u8);
    }
    let len = strlen(s);
    let window = vstd::slice::slice_subrange(s, 0, len);
    proof {
        assert(window@ =~= s@.take(len as int));
    }
    match memchr(window, c) {
        Some(i) => {
            proof {
                lemma_term_len_is_first(s@.take(len as int), c, i as int);
            }
            i
        },
        None => {
            proof {
                lemma_term_len_is_first(s@.take(len as int), c, len as int);
            }
            len
        },
    }
}

/// Index of the last occurrence of `c` in the C string (the terminator
/// itself can be found), or `None`.
pub fn strrchr(s: &[u8], c: u8) -> (r: Option<usize>)
    ensures
        ({
            let w = if c == 0 {
                vstd::math::min(cstr_len(s@) + 1, s@.len() as int)
            } else {
                vstd::math::min(cstr_len(s@), s@.len() as int)
            };
            match r {
                Some(i) => i < w && s@[i as int] == c && forall|j: int| i < j < w ==> s@[j] != c,
                None => forall|j: int| 0 <= j < w ==> s@[j] != c,
            }
        }),
{
    proof {
        lemma_term_len(s@, 0u8);
    }
    let sl = strlen(s);
    let len: usize = if c == 0 {
        if sl < s.len() {
            sl + 1
        } else {
            s.len()
        }
    } else {
        if sl <= s.len() {
            sl
        } else {
            s.len()
        }
    };
    let window = vstd::slice::slice_subrange(s, 0, len);
    proof {
        assert(window@ =~= s@.take(len as int));
    }
    let r = memrchr(window, c);
    proof {
        match r {
            Some(i) => {
                assert(window@[i as int] == s@[i as int]);
                assert forall|j: int| i < j < len implies s@[j] != c by {
                    assert(window@[j] == s@[j]);
                }
            },
            None => {
                assert forall|j: int| 0 <= j < len implies s@[j] != c by {
                    assert(window@[j] == s@[j]);
                }
            },
        }
    }
    r
}

/// Index of the first occurrence of the C string `needle` inside the C
/// string `haystack`, or `None`. The empty needle matches at 0.
pub fn strstr(haystack: &[u8], needle: &[u8]) -> (r: Option<usize>)
    ensures
        ({
            let h = haystack@.take(cstr_len(haystack@));
            let n = needle@.take(cstr_len(needle@));
            match r {
                Some(i) => match_at(h, n, i as int) && forall|j: int|
                    0 <= j < i ==> !match_at(h, n, j),
                None => forall|j: int| !match_at(h, n, j),
            }
        }),
{
    proof {
        lemma_term_len(haystack@, 0u8);
        lemma_term_len(needle@, 0u8);
    }
    let h_len = strlen(haystack);
    let n_len = strlen(needle);
    let h = vstd::slice::slice_subrange(haystack, 0, h_len);
    let n = vstd::slice::slice_subrange(needle, 0, n_len);
    proof {
        assert(h@ =~= haystack@.take(h_len as int));
        assert(n@ =~= needle@.take(n_len as int));
    }
    memmem(h, n)
}

/// `needle` matches `haystack` at `i` ignoring ASCII case.
fn ieq_at(haystack: &[u8], needle: &[u8], i: usize) -> (r: bool)
    requires
        i + needle@.len() <= haystack@.len(),
    ensures
        r == match_at(lower_bytes(haystack@), lower_bytes(needle@), i as int),
{
    proof {
        vstd::slice::axiom_spec_len(haystack);
    }
    let ghost hl = lower_bytes(haystack@);
    let ghost nl = lower_bytes(needle@);
    let m: usize = needle.len();
    let mut j: usize = 0;
    while j < m
        invariant
            0 <= j <= m,
            m == needle@.len(),
            i + m <= haystack@.len() <= usize::MAX,
            hl == lower_bytes(haystack@),
            nl == lower_bytes(needle@),
            forall|k: int| 0 <= k < j ==> hl[i + k] == nl[k],
        decreases m - j,
    {
        let hc = to_lower(haystack[i + j]);
        let nc = to_lower(needle[j]);
        proof {
            assert(hl[i + j] == lower_byte(haystack@[i + j]));
            assert(nl[j as int] == lower_byte(needle@[j as int]));
        }
        if hc != nc {
            proof {
                let sub = hl.subrange(i as int, i + m);
                assert(sub[j as int] == hl[i + j]);
            }
            return false;
        }
        j = j + 1;
    }
    proof {
        assert(hl.subrange(i as int, i + m) =~= nl);
    }
    true
}

/// Index of the first occurrence of `needle` in `haystack`, both taken as
/// C strings, ignoring ASCII case; `None` when there is none.
pub fn strcasestr(haystack: &[u8], needle: &[u8]) -> (r: Option<usize>)
    ensures
        ({
            let h = lower_bytes(haystack@.take(cstr_len(haystack@)));
            let n = lower_bytes(needle@.take(cstr_len(needle@)));
            match r {
                Some(i) => match_at(h, n, i as int) && forall|j: int|
                    0 <= j < i ==> !match_at(h, n, j),
                None => forall|j: int| !match_at(h, n, j),
            }
        }),
{
    proof {
        lemma_term_len(haystack@, 0u8);
        lemma_term_len(needle@, 0u8);
    }
    let h_len = strlen(haystack);
    let n_len = strlen(needle);
    let h = vstd::slice::slice_subrange(haystack, 0, h_len);
    let n = vstd::slice::slice_subrange(needle, 0, n_len);
    proof {
        assert(h@ =~= haystack@.take(h_len as int));
        assert(n@ =~= needle@.take(n_len as int));
    }
    let ghost hl = lower_bytes(h@);
    let ghost nl = lower_bytes(n@);
    if n_len == 0 {
        proof {
            assert(hl.subrange(0, 0) =~= nl);
        }
        return Some(0);
    }
    if n_len > h_len {
        return None;
    }
    let max_start: usize = h_len - n_len;
    let mut i: usize = 0;
    while i <= max_start
        invariant
            0 <= i <= max_start + 1,
            h@ == haystack@.take(h_len as int),
            n@ == needle@.take(n_len as int),
            h_len == cstr_len(haystack@),
            n_len == cstr_len(needle@),
            hl == lower_bytes(h@),
            nl == lower_bytes(n@),
            h_len == h@.len(),
            n_len == n@.len(),
            1 <= n_len <= h_len <= usize::MAX,
            max_start == h_len - n_len,
            forall|j: int| 0 <= j < i ==> !match_at(hl, nl, j),
        decreases max_start + 1 - i,
    {
        if ieq_at(h, n, i) {
            return Some(i);
        }
        i = i + 1;
    }
    None
}

/// ASCII lower-casing of one byte.
fn to_lower(c: u8) -> (r: u8)
    ensures
        r == lower_byte(c),
{
    if c >= 65 && c <= 90 {
        c + 32
    } else {
        c
    }
}

/// Bit `c % 64` of word `c / 64` is set: the bitmap holds `c`.
pub open spec fn bitmap_has(bm: Seq<u64>, c: u8) -> bool
    recommends
        bm.len() == 4,
{
    (bm[c as int / 64] >> ((c as u64) % 64)) & 1u64 == 1u64
}

proof fn lemma_bitmap_insert(x: u64, c: u8, d: u8)
    ensures
        (c >> 6) == (d >> 6) ==> (((x | (1u64 << ((c as u64) % 64))) >> ((d as u64) % 64)) & 1u64
            == 1u64 <==> ((x >> ((d as u64) % 64)) & 1u64 == 1u64 || d == c)),
        (c >> 6) != (d >> 6) ==> (c as int / 64) != (d as int / 64),
        (c >> 6) == (d >> 6) ==> (c as int / 64) == (d as int / 64),
        c as int / 64 == (c >> 6) as int,
        0 <= c as int / 64 < 4,
{
    assert((c >> 6) == (d >> 6) ==> (((x | (1u64 << ((c as u64) % 64))) >> ((d as u64) % 64))
        & 1u64 == 1u64 <==> ((x >> ((d as u64) % 64)) & 1u64 == 1u64 || d == c))) by (bit_vector);
    assert(c as u64 / 64 == ((c >> 6) as u64) && c as u64 / 64 < 4 && d as u64 / 64 == ((d >> 6)
        as u64)) by (bit_vector);
}

spec fn words_have(b0: u64, b1: u64, b2: u64, b3: u64, c: u8) -> bool {
    bitmap_has(seq![b0, b1, b2, b3], c)
}

/// Build the 256-bit membership bitmap for `set`: the tier the set-search
/// functions use when the set is too large for the small-set comparison
/// chain.
pub fn build_byte_bitmap(set: &[u8]) -> (r: [u64; 4])
    ensures
        forall|c: u8| #[trigger] bitmap_has(r@, c) <==> set@.contains(c),
{
    let mut b0: u64 = 0;
    let mut b1: u64 = 0;
    let mut b2: u64 = 0;
    let mut b3: u64 = 0;
    let n: usize = set.len();
    let mut i: usize = 0;
    proof {
        assert forall|c: u8| !(#[trigger] words_have(0u64, 0u64, 0u64, 0u64, c)) by {
            lemma_bitmap_insert(0, c, c);
            assert((0u64 >> ((c as u64) % 64)) & 1u64 == 0u64) by (bit_vector);
            assert(seq![0u64, 0u64, 0u64, 0u64][c as int / 64] == 0u64);
        }
    }
    while i < n
        invariant
            0 <= i <= n,
            n == set@.len(),
            forall|c: u8| #[trigger] words_have(b0, b1, b2, b3, c) <==> set@.take(
                i as int,
            ).contains(c),
        decreases n - i,
    {
        let ghost (p0, p1, p2, p3) = (b0, b1, b2, b3);
        let c = set[i];
        let slot = c >> 6;
        proof {
            lemma_bitmap_insert(0, c, c);
            assert(((c as u64) % 64) < 64) by (bit_vector);
        }
        let bit: u64 = 1u64 << ((c as u64) % 64);
        if slot == 0 {
            b0 = b0 | bit;
        } else if slot == 1 {
            b1 = b1 | bit;
        } else if slot == 2 {
            b2 = b2 | bit;
        } else {
            b3 = b3 | bit;
        }
        proof {
            let before = seq![p0, p1, p2, p3];
            let after = seq![b0, b1, b2, b3];
            assert forall|d: u8| #[trigger] words_have(b0, b1, b2, b3, d) <==> (words_have(
                p0,
                p1,
                p2,
                p3,
                d,
            ) || d == c) by {
                lemma_bitmap_insert(before[c as int / 64], c, d);
                lemma_bitmap_insert(0, d, d);
                assert(before[0] == p0 && before[1] == p1 && before[2] == p2 && before[3] == p3);
                assert(after[0] == b0 && after[1] == b1 && after[2] == b2 && after[3] == b3);
                if (c >> 6) == (d >> 6) {
                    assert(after[d as int / 64] == (before[c as int / 64] | (1u64 << ((c as u64)
                        % 64))));
                } else {
                    assert(after[d as int / 64] == before[d as int / 64]);
                }
            }
            assert forall|d: u8|
                set@.take(i + 1).contains(d) <==> (#[trigger] set@.take(i as int).contains(d) || d
                == c) by {
                if set@.take(i + 1).contains(d) {
                    let k = choose|k: int| 0 <= k < i + 1 && #[trigger] set@.take(i + 1)[k] == d;
                    if k < i {
                        assert(set@.take(i as int)[k] == d);
                    }
                }
                if set@.take(i as int).contains(d) {
                    let k = choose|k: int| 0 <= k < i && #[trigger] set@.take(i as int)[k] == d;
                    assert(set@.take(i + 1)[k] == d);
                }
                if d == c {
                    assert(set@.take(i + 1)[i as int] == c);
                }
            }
            assert forall|d: u8| #[trigger] words_have(b0, b1, b2, b3, d) <==> set@.take(
                i + 1,
            ).contains(d) by {
                assert(words_have(b0, b1, b2, b3, d) <==> (words_have(p0, p1, p2, p3, d) || d
                    == c));
                assert(words_have(p0, p1, p2, p3, d) <==> set@.take(i as int).contains(d));
                assert(set@.take(i + 1).contains(d) <==> (set@.take(i as int).contains(d) || d
                    == c));
            }
        }
        i = i + 1;
    }
    let r: [u64; 4] = [b0, b1, b2, b3];
    proof {
        assert(set@.take(n as int) =~= set@);
        assert(r@ =~= seq![b0, b1, b2, b3]);
        assert forall|c: u8| #[trigger] bitmap_has(r@, c) <==> set@.contains(c) by {
            assert(words_have(b0, b1, b2, b3, c) <==> set@.take(n as int).contains(c));
        }
    }
    r
}

/// Membership test against a bitmap built by [`build_byte_bitmap`].
pub fn bitmap_contains(bitmap: &[u64; 4], c: u8) -> (r: bool)
    ensures
        r == bitmap_has(bitmap@, c),
{
    let slot = (c >> 6) as usize;
    proof {
        lemma_bitmap_insert(0, c, c);
        assert(((c as u64) % 64) < 64) by (bit_vector);
    }
    let bit: u64 = 1u64 << ((c as u64) % 64);
    let w: u64 = bitmap[slot];
    proof {
        assert((w >> ((c as u64) % 64)) & 1u64 == 1u64 <==> (w & (1u64 << ((c as u64) % 64)))
            != 0) by (bit_vector);
        assert(bitmap@[c as int / 64] == w);
    }
    (w & bit) != 0
}

/// Membership in a set of at most four bytes: the comparison-chain tier.
pub fn contains_small_set(set: &[u8], c: u8) -> (r: bool)
    requires
        set@.len() <= 4,
    ensures
        r == set@.contains(c),
{
    let n: usize = set.len();
    let r = (n >= 1 && set[0] == c) || (n >= 2 && set[1] == c) || (n >= 3 && set[2] == c) || (n
        >= 4 && set[3] == c);
    proof {
        if r {
            assert(set@.contains(c));
        } else {
            assert forall|j: int| 0 <= j < set@.len() implies set@[j] != c by {}
            assert(!set@.contains(c));
        }
    }
    r
}

/// `c` occurs in `set`.
pub(crate) fn slice_contains(set: &[u8], c: u8) -> (r: bool)
    ensures
        r == set@.contains(c),
{
    let n: usize = set.len();
    let mut i: usize = 0;
    while i < n
        invariant
            0 <= i <= n,
            n == set@.len(),
            forall|j: int| 0 <= j < i ==> set@[j] != c,
        decreases n - i,
    {
        if set[i] == c {
            return true;
        }
        i = i + 1;
    }
    proof {
        assert(!set@.contains(c));
    }
    false
}

/// Length of the longest prefix of the C string in `s` whose bytes all
/// come from the C string in `accept`.
pub fn strspn(s: &[u8], accept: &[u8]) -> (r: usize)
    ensures
        ({
            let st = s@.take(cstr_len(s@));
            let at = accept@.take(cstr_len(accept@));
            &&& r <= st.len()
            &&& forall|j: int| 0 <= j < r ==> at.contains(st[j])
            &&& r < st.len() ==> !at.contains(st[r as int])
        }),
{
    proof {
        lemma_term_len(s@, 0u8);
        lemma_term_len(accept@, 0u8);
    }
    let s_len = strlen(s);
    let a_len = strlen(accept);
    let st = vstd::slice::slice_subrange(s, 0, s_len);
    let at = vstd::slice::slice_subrange(accept, 0, a_len);
    proof {
        assert(st@ =~= s@.take(s_len as int));
        assert(at@ =~= accept@.take(a_len as int));
    }
    let mut i: usize = 0;
    if a_len <= 4 {
        while i < s_len
            invariant
                0 <= i <= s_len,
                s_len == st@.len(),
                st@ == s@.take(cstr_len(s@)),
                at@ == accept@.take(cstr_len(accept@)),
                at@.len() <= 4,
                forall|j: int| 0 <= j < i ==> at@.contains(st@[j]),
            decreases s_len - i,
        {
            if !contains_small_set(at, st[i]) {
                return i;
            }
            i = i + 1;
        }
        return s_len;
    }
    let bm = build_byte_bitmap(at);
    while i < s_len
        invariant
            0 <= i <= s_len,
            s_len == st@.len(),
            st@ == s@.take(cstr_len(s@)),
            at@ == accept@.take(cstr_len(accept@)),
            forall|c: u8| #[trigger] bitmap_has(bm@, c) <==> at@.contains(c),
            forall|j: int| 0 <= j < i ==> at@.contains(st@[j]),
        decreases s_len - i,
    {
        if !bitmap_contains(&bm, st[i]) {
            return i;
        }
        i = i + 1;
    }
    s_len
}

/// Length of the longest prefix of the C string in `s` containing no byte
/// of the C string in `reject`.
pub fn strcspn(s: &[u8], reject: &[u8]) -> (r: usize)
    ensures
        ({
            let st = s@.take(cstr_len(s@));
            let rt = reject@.take(cstr_len(reject@));
            &&& r <= st.len()
            &&& forall|j: int| 0 <= j < r ==> !rt.contains(st[j])
            &&& r < st.len() ==> rt.contains(st[r as int])
        }),
{
    proof {
        lemma_term_len(s@, 0u8);
        lemma_term_len(reject@, 0u8);
    }
    let s_len = strlen(s);
    let r_len = strlen(reject);
    let st = vstd::slice::slice_subrange(s, 0, s_len);
    let rt = vstd::slice::slice_subrange(reject, 0, r_len);
    proof {
        assert(st@ =~= s@.take(s_len as int));
        assert(rt@ =~= reject@.take(r_len as int));
    }
    let mut i: usize = 0;
    if r_len <= 4 {
        while i < s_len
            invariant
                0 <= i <= s_len,
                s_len == st@.len(),
                st@ == s@.take(cstr_len(s@)),
                rt@ == reject@.take(cstr_len(reject@)),
                rt@.len() <= 4,
                forall|j: int| 0 <= j < i ==> !rt@.contains(st@[j]),
            decreases s_len - i,
        {
            if contains_small_set(rt, st[i]) {
                return i;
            }
            i = i + 1;
        }
        return s_len;
    }
    let bm = build_byte_bitmap(rt);
    while i < s_len
        invariant
            0 <= i <= s_len,
            s_len == st@.len(),
            st@ == s@.take(cstr_len(s@)),
            rt@ == reject@.take(cstr_len(reject@)),
            forall|c: u8| #[trigger] bitmap_has(bm@, c) <==> rt@.contains(c),
            forall|j: int| 0 <= j < i ==> !rt@.contains(st@[j]),
        decreases s_len - i,
    {
        if bitmap_contains(&bm, st[i]) {
            return i;
        }
        i = i + 1;
    }
    s_len
}

/// Index of the first byte of the C string in `s` that occurs in the C
/// string `accept`, or `None`.
pub fn strpbrk(s: &[u8], accept: &[u8]) -> (r: Option<usize>)
    ensures
        ({
            let st = s@.take(cstr_len(s@));
            let at = accept@.take(cstr_len(accept@));
            match r {
                Some(i) => i < st.len() && at.contains(st[i as int]) && forall|j: int|
                    0 <= j < i ==> !at.contains(st[j]),
                None => forall|j: int| 0 <= j < st.len() ==> !at.contains(st[j]),
            }
        }),
{
    proof {
        lemma_term_len(s@, 0u8);
        lemma_term_len(accept@, 0u8);
    }
    let s_len = strlen(s);
    let a_len = strlen(accept);
    let st = vstd::slice::slice_subrange(s, 0, s_len);
    let at = vstd::slice::slice_subrange(accept, 0, a_len);
    proof {
        assert(st@ =~= s@.take(s_len as int));
        assert(at@ =~= accept@.take(a_len as int));
    }
    let mut i: usize = 0;
    if a_len <= 4 {
        while i < s_len
            invariant
                0 <= i <= s_len,
                s_len == st@.len(),
                st@ == s@.take(cstr_len(s@)),
                at@ == accept@.take(cstr_len(accept@)),
                at@.len() <= 4,
                forall|j: int| 0 <= j < i ==> !at@.contains(st@[j]),
            decreases s_len - i,
        {
            if contains_small_set(at, st[i]) {
                return Some(i);
            }
            i = i + 1;
        }
        return None;
    }
    let bm = build_byte_bitmap(at);
    while i < s_len
        invariant
            0 <= i <= s_len,
            s_len == st@.len(),
            st@ == s@.take(cstr_len(s@)),
            at@ == accept@.take(cstr_len(accept@)),
            forall|c: u8| #[trigger] bitmap_has(bm@, c) <==> at@.contains(c),
            forall|j: int| 0 <= j < i ==> !at@.contains(st@[j]),
        decreases s_len - i,
    {
        if bitmap_contains(&bm, st[i]) {
            return Some(i);
        }
        i = i + 1;
    }
    None
}

/// Locate a byte in a C string: alias of [`strchr`].
pub fn index(s: &[u8], c: u8) -> (r: Option<usize>)
    ensures
        ({
            let w = strchr_window(s@, c);
            match r {
                Some(i) => i < w && s@[i as int] == c && forall|j: int| 0 <= j < i ==> s@[j] != c,
                None => forall|j: int| 0 <= j < w ==> s@[j] != c,
            }
        }),
{
    strchr(s, c)
}

/// Locate the last occurrence of a byte in a C string: alias of
/// [`strrchr`].
pub fn rindex(s: &[u8], c: u8) -> (r: Option<usize>)
    ensures
        ({
            let w = if c == 0 {
                vstd::math::min(cstr_len(s@) + 1, s@.len() as int)
            } else {
                vstd::math::min(cstr_len(s@), s@.len() as int)
            };
            match r {
                Some(i) => i < w && s@[i as int] == c && forall|j: int| i < j < w ==> s@[j] != c,
                None => forall|j: int| 0 <= j < w ==> s@[j] != c,
            }
        }),
{
    strrchr(s, c)
}

} // verus!
