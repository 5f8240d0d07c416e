//! Small byte-slice helpers shared across the crate.

use vstd::prelude::*;

verus! {

/// True exactly when `k` holds the bytes `w`; `lit` is the executable copy
/// of `w` to compare against.
pub(crate) fn bytes_is(k: &[u8], Ghost(w): Ghost<Seq<u8>>, lit: &[u8]) -> (r: bool)
    requires
        lit@ == w,
    ensures
        r == (k@ == w),
{
    if k.len() != lit.len() {
        proof {
            assert(k@ != w);
        }
        return false;
    }
    let mut i: usize = 0;
    while i < k.len()
        invariant
            i <= k@.len(),
            k@.len() == w.len(),
            lit@ == w,
            forall|j: int| 0 <= j < i ==> k@[j] == w[j],
        decreases k@.len() - i,
    {
        if k[i] != lit[i] {
            return false;
        }
        i += 1;
    }
    proof {
        assert(k@ =~= w);
    }
    true
}

/// The bytes of `s` from `i` (inclusive) to `e` (exclusive), as a fresh
/// vector.
pub(crate) fn copy_range(s: &[u8], i: usize, e: usize) -> (r: Vec<u8>)
    requires
        i <= e <= s@.len(),
    ensures
        r@ == s@.subrange(i as int, e as int),
{
    let mut out: Vec<u8> = Vec::new();
    let mut j = i;
    while j < e
        invariant
            i <= j <= e <= s@.len(),
            out@ == s@.subrange(i as int, j as int),
        decreases e - j,
    {
        out.push(s[j]);
        proof {
            assert(out@ =~= s@.subrange(i as int, j + 1 as int));
        }
        j += 1;
    }
    out
}

} // verus!
