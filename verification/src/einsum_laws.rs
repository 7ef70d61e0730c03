//! What the check of the pair kernel is for: over exact numbers the kernel and the reference
//! agree, and the gaps and sizes that a report gives are the largest there are.

use vstd::prelude::*;

use crate::einsum::{reference_ones, reference_raw, EinsumInput};
use crate::einsum_check::{largest_gap, largest_size, CheckReport, CheckSizes, EinsumCheck};
use crate::ops::value;

verus! {

/// The distance between two numbers.
pub open spec fn distance(a: int, b: int) -> int {
    if a < b {
        b - a
    } else {
        a - b
    }
}

/// The greater of two numbers.
pub open spec fn greater(a: int, b: int) -> int {
    if a < b {
        b
    } else {
        a
    }
}

/// The largest gap is the largest: no two elements at one place are further apart, and it is the
/// distance of two elements at one place, unless there is none.
pub proof fn gap_is_the_largest<T, L: Fn((T, T, T)) -> T>(
    gap: L,
    zero: T,
    got: Seq<T>,
    exp: Seq<T>,
    n: nat,
    worth: spec_fn(T) -> int,
)
    requires
        worth(zero) == 0,
        forall|g: T, a: T, b: T|
            worth(#[trigger] value::<(T, T, T), T, L>(gap, (g, a, b))) == greater(
                worth(g),
                distance(worth(a), worth(b)),
            ),
    ensures
        ({
            let largest = worth(largest_gap::<T, L>(gap, zero, got, exp, n));
            &&& forall|j: int|
                0 <= j < n ==> #[trigger] distance(worth(got[j]), worth(exp[j])) <= largest
            &&& largest == 0 || exists|j: int|
                0 <= j < n && #[trigger] distance(worth(got[j]), worth(exp[j])) == largest
        }),
    decreases n,
{
    if n > 0 {
        gap_is_the_largest::<T, L>(gap, zero, got, exp, (n - 1) as nat, worth);
        let before = worth(largest_gap::<T, L>(gap, zero, got, exp, (n - 1) as nat));
        let here = distance(worth(got[n - 1]), worth(exp[n - 1]));
        assert(worth(largest_gap::<T, L>(gap, zero, got, exp, n)) == greater(before, here));
    }
}

/// The largest size is the largest.
pub proof fn size_is_the_largest<T, K: Fn((T, T)) -> T>(
    size: K,
    zero: T,
    list: Seq<T>,
    n: nat,
    worth: spec_fn(T) -> int,
)
    requires
        worth(zero) == 0,
        forall|s: T, x: T|
            worth(#[trigger] value::<(T, T), T, K>(size, (s, x))) == greater(
                worth(s),
                distance(worth(x), 0),
            ),
    ensures
        ({
            let largest = worth(largest_size::<T, K>(size, zero, list, n));
            &&& forall|j: int| 0 <= j < n ==> #[trigger] distance(worth(list[j]), 0) <= largest
            &&& largest == 0 || exists|j: int|
                0 <= j < n && #[trigger] distance(worth(list[j]), 0) == largest
        }),
    decreases n,
{
    if n > 0 {
        size_is_the_largest::<T, K>(size, zero, list, (n - 1) as nat, worth);
        let before = worth(largest_size::<T, K>(size, zero, list, (n - 1) as nat));
        let here = distance(worth(list[n - 1]), 0);
        assert(worth(largest_size::<T, K>(size, zero, list, n)) == greater(before, here));
    }
}

impl<
    T: Copy,
    U: Copy,
    W: Fn((T, T, T)) -> T,
    M: Fn((T, T, T)) -> T,
    P: Fn((T, T)) -> T,
    Q: Fn((T, T)) -> T,
    F: Fn(u32) -> T,
    R: Fn((U, T, T, T, T)) -> U,
    O: Fn((U, T, T)) -> U,
    X: Fn(U) -> T,
    Y: Fn(U) -> T,
    D: Fn((T, T)) -> bool,
    L: Fn((T, T, T)) -> T,
    K: Fn((T, T)) -> T,
    C: Fn((T, T, T)) -> bool,
> EinsumCheck<T, U, W, M, P, Q, F, R, O, X, Y, D, L, K, C> {
    /// Whether all arithmetic of a check is exact: a wide sum grows by the product of an element of
    /// `A`, the sum of both scores and an element of `B`, or by the plain product, which counts
    /// twice.
    pub open spec fn exact(&self, worth: spec_fn(T) -> int, wide: spec_fn(U) -> int) -> bool {
        &&& self.ops.exact(worth)
        &&& wide(self.wide_zero) == 0
        &&& forall|u: U, a: T, s: T, t: T, b: T|
            wide(#[trigger] value::<(U, T, T, T, T), U, R>(self.acc_raw, (u, a, s, t, b))) == wide(
                u,
            ) + (worth(a) * (worth(s) + worth(t))) * worth(b)
        &&& forall|u: U, a: T, b: T|
            wide(#[trigger] value::<(U, T, T), U, O>(self.acc_ones, (u, a, b))) == wide(u) + worth(
                a,
            ) * worth(b)
        &&& forall|u: U| worth(#[trigger] value::<U, T, X>(self.to_raw, u)) == wide(u)
        &&& forall|u: U| worth(#[trigger] value::<U, T, Y>(self.to_ones, u)) == 2 * wide(u)
        &&& forall|g: T, a: T, b: T|
            worth(#[trigger] value::<(T, T, T), T, L>(self.gap, (g, a, b))) == greater(
                worth(g),
                distance(worth(a), worth(b)),
            )
        &&& forall|s: T, x: T|
            worth(#[trigger] value::<(T, T), T, K>(self.size, (s, x))) == greater(
                worth(s),
                distance(worth(x), 0),
            )
    }

    proof fn reference_is_the_sum(
        &self,
        x: &EinsumInput<T>,
        m: int,
        n: int,
        k: nat,
        worth: spec_fn(T) -> int,
        wide: spec_fn(U) -> int,
    )
        requires
            self.exact(worth, wide),
            0 <= m < x.shape.a,
        ensures
            wide(reference_raw::<T, U, R>(self.acc_raw, self.wide_zero, x, m, n, k)) == worth(
                self.ops.partial(x, m, n, 0, k as int),
            ),
            wide(reference_ones::<T, U, O>(self.acc_ones, self.wide_zero, x, m, n, k)) == worth(
                self.ops.partial(x, x.shape.a + m, n, 0, k as int),
            ),
        decreases k,
    {
        if k > 0 {
            self.reference_is_the_sum(x, m, n, (k - 1) as nat, worth, wide);
        }
    }

    /// Kernel and reference agree: over exact numbers, the matrices of a report are those of the
    /// reference, element by element, both gaps are zero, and no element of the weighted reference
    /// is larger than the size that the report gives.
    pub proof fn kernel_agrees_with_the_reference(
        &self,
        c: CheckSizes,
        x: &EinsumInput<T>,
        report: CheckReport<T>,
        worth: spec_fn(T) -> int,
        wide: spec_fn(U) -> int,
    )
        requires
            c.valid(),
            self.reports(c, x, report),
            self.exact(worth, wide),
            x.shape.half == c.half,
            x.shape.r == c.r,
            x.shape.a == c.a,
        ensures
            report.raw@.len() == c.a * c.b,
            report.ones@.len() == c.a * c.b,
            forall|j: int|
                0 <= j < report.raw@.len() ==> worth(#[trigger] report.raw@[j]) == worth(
                    report.ref_raw@[j],
                ) && worth(report.ones@[j]) == worth(report.ref_ones@[j]),
            worth(report.raw_gap) == 0,
            worth(report.ones_gap) == 0,
            forall|j: int|
                0 <= j < report.ref_raw@.len() ==> #[trigger] distance(
                    worth(report.ref_raw@[j]),
                    0,
                ) <= worth(report.scale),
    {
        let cells = (c.a * c.b) as nat;
        let zero = self.ops.zero;
        assert(0 < c.slices());
        assert forall|j: int| 0 <= j < cells implies worth(#[trigger] report.raw@[j]) == worth(
            report.ref_raw@[j],
        ) && worth(report.ones@[j]) == worth(report.ref_ones@[j]) by {
            let (m, n) = (j / c.b as int, j % c.b as int);
            assert(0 <= m < c.a) by (nonlinear_arith)
                requires
                    0 <= j < c.a * c.b,
                    0 < c.b,
                    m == j / c.b as int,
            ;
            self.reference_is_the_sum(x, m, n, c.rows() as nat, worth, wide);
            self.ops.slices_add_up(worth, x, zero, m, n, c.slices());
        }
        assert forall|j: int| 0 <= j < cells implies #[trigger] distance(
            worth(report.ones@[j]),
            worth(report.ref_ones@[j]),
        ) == 0 by {
            assert(worth(report.raw@[j]) == worth(report.ref_raw@[j]));
        }
        gap_is_the_largest::<T, L>(self.gap, zero, report.raw@, report.ref_raw@, cells, worth);
        gap_is_the_largest::<T, L>(self.gap, zero, report.ones@, report.ref_ones@, cells, worth);
        size_is_the_largest::<T, K>(self.size, zero, report.ref_raw@, cells, worth);
    }
}

} // verus!
