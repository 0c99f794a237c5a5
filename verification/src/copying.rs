//! Element-wise transfer primitives: the remainder handlers every engine
//! bottoms out in. Each states exactly which positions it writes and that
//! every other position keeps its old value.

use vstd::prelude::*;

verus! {

broadcast use vstd::slice::group_slice_axioms;

/// Copy `n` elements from `src[src_off..]` into `dest[dest_off..]`.
/// The two slices are distinct borrows, so the regions never overlap.
pub fn copy_elems<T: Copy>(dest: &mut [T], dest_off: usize, src: &[T], src_off: usize, n: usize)
    requires
        dest_off + n <= old(dest)@.len(),
        src_off + n <= src@.len(),
    ensures
        final(dest)@.len() == old(dest)@.len(),
        forall|i: int|
            dest_off <= i < dest_off + n ==> final(dest)@[i] == src@[src_off + (i - dest_off)],
        forall|i: int|
            0 <= i < old(dest)@.len() && !(dest_off <= i < dest_off + n) ==> final(dest)@[i]
                == old(dest)@[i],
{
    proof {
        vstd::slice::axiom_spec_len(dest);
        vstd::slice::axiom_spec_len(src);
    }
    let mut k: usize = 0;
    while k < n
        invariant
            0 <= k <= n,
            dest_off + n <= dest@.len() <= usize::MAX,
            src_off + n <= src@.len() <= usize::MAX,
            dest@.len() == old(dest)@.len(),
            forall|i: int|
                dest_off <= i < dest_off + k ==> dest@[i] == src@[src_off + (i - dest_off)],
            forall|i: int|
                0 <= i < dest@.len() && !(dest_off <= i < dest_off + k) ==> dest@[i] == old(
                    dest,
                )@[i],
        decreases n - k,
    {
        let v: T = src[src_off + k];
        dest[dest_off + k] = v;
        k = k + 1;
    }
}

/// Set `n` elements of `dest[off..]` to `value`, leaving the rest alone.
pub fn fill_elems<T: Copy>(dest: &mut [T], off: usize, n: usize, value: T)
    requires
        off + n <= old(dest)@.len(),
    ensures
        final(dest)@.len() == old(dest)@.len(),
        forall|i: int| off <= i < off + n ==> final(dest)@[i] == value,
        forall|i: int|
            0 <= i < old(dest)@.len() && !(off <= i < off + n) ==> final(dest)@[i] == old(
                dest,
            )@[i],
{
    proof {
        vstd::slice::axiom_spec_len(dest);
    }
    let mut k: usize = 0;
    while k < n
        invariant
            0 <= k <= n,
            off + n <= dest@.len() <= usize::MAX,
            dest@.len() == old(dest)@.len(),
            forall|i: int| off <= i < off + k ==> dest@[i] == value,
            forall|i: int|
                0 <= i < dest@.len() && !(off <= i < off + k) ==> dest@[i] == old(dest)@[i],
        decreases n - k,
    {
        dest[off + k] = value;
        k = k + 1;
    }
}

} // verus!
