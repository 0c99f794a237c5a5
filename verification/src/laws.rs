//! Cross-cutting laws of the engines, stated over the same spec functions
//! the engine contracts use.

use vstd::prelude::*;

use crate::specs::{compare_bytes, compare_wide, lemma_compare_bytes_eq,
    lemma_compare_wide_prefix_equal, term_len};

verus! {

/// Alignment invariance. Every engine contract pins its result to a
/// function of the span's contents and length alone, so two windows
/// holding the same bytes — wherever each sits inside its buffer, at
/// whatever offset or alignment — give identical comparison and scan
/// results.
pub proof fn lemma_alignment_invariance(
    s1: Seq<u8>,
    off1: int,
    s2: Seq<u8>,
    off2: int,
    n: int,
    c: u8,
)
    requires
        0 <= n,
        0 <= off1,
        off1 + n <= s1.len(),
        0 <= off2,
        off2 + n <= s2.len(),
        forall|k: int| 0 <= k < n ==> s1[off1 + k] == #[trigger] s2[off2 + k],
    ensures
        s1.subrange(off1, off1 + n) == s2.subrange(off2, off2 + n),
        term_len(s1.subrange(off1, off1 + n), c) == term_len(s2.subrange(off2, off2 + n), c),
        forall|w: Seq<u8>| #[trigger] compare_bytes(s1.subrange(off1, off1 + n), w)
            == compare_bytes(s2.subrange(off2, off2 + n), w),
{
    assert forall|k: int|
        0 <= k < n implies #[trigger] s1.subrange(off1, off1 + n)[k] == s2.subrange(
        off2,
        off2 + n,
    )[k] by {
        assert(s1.subrange(off1, off1 + n)[k] == s1[off1 + k]);
        assert(s2.subrange(off2, off2 + n)[k] == s2[off2 + k]);
    }
    assert(s1.subrange(off1, off1 + n) =~= s2.subrange(off2, off2 + n));
}

/// Swapping the operands flips the sign of the comparison.
pub proof fn lemma_compare_bytes_antisymmetric(a: Seq<u8>, b: Seq<u8>)
    ensures
        compare_bytes(a, b) == -compare_bytes(b, a),
    decreases a.len() + b.len(),
{
    if a.len() > 0 && b.len() > 0 && a[0] == b[0] {
        lemma_compare_bytes_antisymmetric(a.skip(1), b.skip(1));
    }
}

/// A span compares equal to itself.
pub proof fn lemma_compare_bytes_self(a: Seq<u8>)
    ensures
        compare_bytes(a, a) == 0,
{
    lemma_compare_bytes_eq(a, a);
}

/// Swapping the operands flips the sign of the wide comparison.
pub proof fn lemma_compare_wide_antisymmetric(a: Seq<i32>, b: Seq<i32>)
    ensures
        compare_wide(a, b) == -compare_wide(b, a),
    decreases a.len() + b.len(),
{
    if a.len() > 0 && b.len() > 0 && a[0] == b[0] {
        lemma_compare_wide_antisymmetric(a.skip(1), b.skip(1));
    }
}

/// A wide span compares equal to itself.
pub proof fn lemma_compare_wide_self(a: Seq<i32>)
    ensures
        compare_wide(a, a) == 0,
{
    lemma_compare_wide_prefix_equal(a, a);
}

} // verus!
