//! Cutting a range into consecutive pieces, and making lists of pieces and of
//! copies.

use vstd::arithmetic::div_mod::*;
use vstd::prelude::*;

verus! {

/// The smallest number of parts of size `size` that hold `n`.
pub open spec fn parts(n: int, size: int) -> int {
    (n + size - 1) / size
}

/// Where slice `q` of `n` items starts.
pub open spec fn slice_start(n: int, slices: int, q: int) -> int {
    q * parts(n, slices)
}

/// Where slice `q` of `n` items ends.
pub open spec fn slice_end(n: int, slices: int, q: int) -> int {
    if slice_start(n, slices, q) + parts(n, slices) < n {
        slice_start(n, slices, q) + parts(n, slices)
    } else {
        n
    }
}

/// The slices are the whole range, cut in order: each slice starts where the one before it ends,
/// the first at zero, and the last reaches the end. A slice that would start behind the end is
/// empty.
pub proof fn slices_partition(n: int, slices: int, q: int)
    requires
        0 < n,
        0 <= q < slices,
    ensures
        0 < parts(n, slices),
        slice_start(n, slices, 0) == 0,
        slice_end(n, slices, slices - 1) == n,
        0 <= slice_start(n, slices, q) < n + slices,
        slice_start(n, slices, q + 1) < n ==> slice_end(n, slices, q) == slice_start(
            n,
            slices,
            q + 1,
        ),
        slice_start(n, slices, q + 1) >= n ==> slice_end(n, slices, q) == n,
{
    let p = parts(n, slices);
    lemma_fundamental_div_mod(n + slices - 1, slices);
    assert(slices * p >= n && slices * p <= n + slices - 1);
    assert(p > 0) by (nonlinear_arith)
        requires
            slices * p >= n,
            n > 0,
            slices > 0,
    ;
    assert(0 <= q * p <= (slices - 1) * p) by (nonlinear_arith)
        requires
            0 <= q <= slices - 1,
            p > 0,
    ;
    assert((slices - 1) * p + p == slices * p) by (nonlinear_arith);
    assert((q + 1) * p == q * p + p) by (nonlinear_arith);
    assert(0 * p == 0) by (nonlinear_arith);
}

/// The bounds of slice `q` of `n` cut into `slices`.
pub fn slice_bounds(n: usize, slices: usize, q: usize) -> (bounds: (usize, usize))
    requires
        0 < n,
        q < slices,
        n + slices <= usize::MAX,
    ensures
        bounds.0 == slice_start(n as int, slices as int, q as int),
        bounds.1 == slice_end(n as int, slices as int, q as int),
        bounds.1 <= n,
{
    proof {
        slices_partition(n as int, slices as int, q as int);
    }
    let size: usize = (n + slices - 1) / slices;
    let start: usize = q * size;
    if start < n && size < n - start {
        (start, start + size)
    } else {
        (start, n)
    }
}

/// The elements `lo` to `hi` of `buf`.
pub fn copy_slice<T: Copy>(buf: &[T], lo: usize, hi: usize) -> (out: Vec<T>)
    requires
        lo <= hi <= buf@.len(),
    ensures
        out@ == buf@.subrange(lo as int, hi as int),
{
    let mut out: Vec<T> = Vec::with_capacity(hi - lo);
    let mut i: usize = lo;
    while i < hi
        invariant
            lo <= i <= hi <= buf@.len(),
            out@ == buf@.subrange(lo as int, i as int),
        decreases hi - i,
    {
        out.push(buf[i]);
        i = i + 1;
        proof {
            assert(out@ =~= buf@.subrange(lo as int, i as int));
        }
    }
    out
}

/// A vector of `n` copies of `x`.
pub(crate) fn filled<T: Copy>(x: T, n: usize) -> (v: Vec<T>)
    ensures
        v@.len() == n,
        forall|i: int| 0 <= i < n ==> #[trigger] v@[i] == x,
{
    let mut v: Vec<T> = Vec::with_capacity(n);
    let mut i: usize = 0;
    while i < n
        invariant
            i <= n,
            v@.len() == i,
            forall|j: int| 0 <= j < i ==> #[trigger] v@[j] == x,
        decreases n - i,
    {
        v.push(x);
        i = i + 1;
    }
    v
}

} // verus!
