//! The check of the paired einsum kernel against its reference, on operands
//! from a generator.

use vstd::prelude::*;

use crate::einsum::{
    count_mismatches, cpu_ref, fill_rng, in_matrix, launch_grid, mismatches, operand_seed,
    reference_ones, reference_raw, rows_fit, EinsumInput, EinsumOps, EinsumShape, BN, M_MAX,
};
use crate::ops::{apply, computes, value};
use crate::split::{filled, parts};

verus! {

/// The most rows of a slice of the check.
pub const CHECK_ROWS: usize = 4000;

/// The sizes of a check.
#[derive(Clone, Copy, Debug, PartialEq, Eq, Structural)]
pub struct CheckSizes {
    /// Number of sample pairs.
    pub half: usize,
    /// Rows per sample pair.
    pub r: usize,
    /// Columns of `A`.
    pub a: usize,
    /// Columns of `B`.
    pub b: usize,
    /// Distance between the rows of `A`.
    pub a_pitch: usize,
    /// Distance between the rows of `B`.
    pub b_pitch: usize,
}

impl CheckSizes {
    /// The number of rows.
    pub open spec fn rows(self) -> int {
        self.half * self.r
    }

    /// There are two rows to show and a column to show them in, rows hold their columns, the
    /// stacked columns fit a tile, and counts stay in the machine's range.
    pub open spec fn valid(self) -> bool {
        &&& 2 <= self.rows()
        &&& 2 * self.rows() + CHECK_ROWS <= usize::MAX
        &&& 2 * self.half <= usize::MAX
        &&& 0 < self.a <= self.a_pitch
        &&& 2 * self.a <= M_MAX
        &&& 0 < self.b <= self.b_pitch
        &&& self.b + BN <= usize::MAX
        &&& self.rows() * self.a_pitch <= usize::MAX
        &&& self.rows() * self.b_pitch <= usize::MAX
        &&& self.a * self.b <= usize::MAX
    }

    /// The number of slices of rows.
    pub open spec fn slices(self) -> int {
        parts(self.rows(), CHECK_ROWS as int)
    }
}

/// What a check found.
pub struct CheckReport<T> {
    /// The weighted matrix of the kernel.
    pub raw: Vec<T>,
    /// The plain matrix of the kernel.
    pub ones: Vec<T>,
    /// The weighted matrix of the reference.
    pub ref_raw: Vec<T>,
    /// The plain matrix of the reference.
    pub ref_ones: Vec<T>,
    /// Wrong elements in the first two rows of the tile of `A`.
    pub bad_a: usize,
    /// Wrong elements in the first two rows of the tile of `B`.
    pub bad_b: usize,
    /// The largest difference between the weighted matrices.
    pub raw_gap: T,
    /// The largest difference between the plain matrices.
    pub ones_gap: T,
    /// The largest size of an element of the weighted reference.
    pub scale: T,
    /// Whether the differences are small.
    pub passed: bool,
}

/// `n` elements from a generator: element `i` is what `scaled` makes of the upper 31 bits of the
/// state after `i + 1` steps.
pub open spec fn operands<T, F: Fn(u32) -> T>(scaled: F, seed: u64, n: nat) -> Seq<T> {
    Seq::new(
        n,
        |i: int|
            value::<u32, T, F>(
                scaled,
                (operand_seed(seed, (i + 1) as nat) / 0x2_0000_0000) as u32,
            ),
    )
}

/// The generator goes on where it stopped.
proof fn operand_seed_adds(seed: u64, m: nat, n: nat)
    ensures
        operand_seed(operand_seed(seed, m), n) == operand_seed(seed, m + n),
    decreases n,
{
    if n > 0 {
        operand_seed_adds(seed, m, (n - 1) as nat);
    }
}

/// The largest gap between the first `n` elements of two lists.
pub open spec fn largest_gap<T, L: Fn((T, T, T)) -> T>(
    gap: L,
    zero: T,
    got: Seq<T>,
    exp: Seq<T>,
    n: nat,
) -> T
    decreases n,
{
    if n == 0 {
        zero
    } else {
        value::<(T, T, T), T, L>(
            gap,
            (largest_gap::<T, L>(gap, zero, got, exp, (n - 1) as nat), got[n - 1], exp[n - 1]),
        )
    }
}

/// The largest size of the first `n` elements of a list.
pub open spec fn largest_size<T, K: Fn((T, T)) -> T>(size: K, zero: T, list: Seq<T>, n: nat) -> T
    decreases n,
{
    if n == 0 {
        zero
    } else {
        value::<(T, T), T, K>(
            size,
            (largest_size::<T, K>(size, zero, list, (n - 1) as nat), list[n - 1]),
        )
    }
}

/// The arithmetic of a check.
pub struct EinsumCheck<T, U, W, M, P, Q, F, R, O, X, Y, D, L, K, C> {
    /// The arithmetic of the kernel.
    pub ops: EinsumOps<T, W, M, P, Q>,
    /// The empty sum of the reference.
    pub wide_zero: U,
    /// An operand, of 31 bits.
    pub scaled: F,
    /// A weighted sum of the reference.
    pub acc_raw: R,
    /// A plain sum of the reference.
    pub acc_ones: O,
    /// An element of the weighted reference.
    pub to_raw: X,
    /// An element of the plain reference.
    pub to_ones: Y,
    /// Whether an element of a tile is far from what it should be.
    pub far: D,
    /// The larger of a gap and the gap between two elements.
    pub gap: L,
    /// The larger of a size and the size of an element.
    pub size: K,
    /// Whether two gaps are small, for the size of the result.
    pub close: C,
}

impl<
    T: Copy,
    U: Copy,
    W: Fn((T, T, T)) -> T,
    M: Fn((T, T, T)) -> T,
    P: Fn((T, T)) -> T,
    Q: Fn((T, T)) -> T,
    F: Fn(u32) -> T,
    R: Fn((U, T, T, T, T)) -> U,
    O: Fn((U, T, T)) -> U,
    X: Fn(U) -> T,
    Y: Fn(U) -> T,
    D: Fn((T, T)) -> bool,
    L: Fn((T, T, T)) -> T,
    K: Fn((T, T)) -> T,
    C: Fn((T, T, T)) -> bool,
> EinsumCheck<T, U, W, M, P, Q, F, R, O, X, Y, D, L, K, C> {
    /// Each operation gives one result for each argument.
    pub open spec fn valid(&self) -> bool {
        &&& self.ops.valid()
        &&& computes::<u32, T, F>(self.scaled)
        &&& computes::<(U, T, T, T, T), U, R>(self.acc_raw)
        &&& computes::<(U, T, T), U, O>(self.acc_ones)
        &&& computes::<U, T, X>(self.to_raw)
        &&& computes::<U, T, Y>(self.to_ones)
        &&& computes::<(T, T), bool, D>(self.far)
        &&& computes::<(T, T, T), T, L>(self.gap)
        &&& computes::<(T, T), T, K>(self.size)
        &&& computes::<(T, T, T), bool, C>(self.close)
    }

    /// Whether the operands are those that the generator gives: the rows of `A`, those of `B`,
    /// then the scores.
    pub open spec fn drawn(&self, c: CheckSizes, seed: u64, x: &EinsumInput<T>) -> bool {
        let (na, nb) = ((c.rows() * c.a_pitch) as nat, (c.rows() * c.b_pitch) as nat);
        &&& x.shape == (EinsumShape {
            half: c.half,
            r: c.r,
            a: c.a,
            a_s0: (c.r * c.a_pitch) as usize,
            a_s1: c.a_pitch,
            b: c.b,
            b_s0: (c.r * c.b_pitch) as usize,
            b_s1: c.b_pitch,
        })
        &&& x.a_flat@ == operands::<T, F>(self.scaled, seed, na)
        &&& x.b_flat@ == operands::<T, F>(self.scaled, operand_seed(seed, na), nb)
        &&& x.scores@ == operands::<T, F>(
            self.scaled,
            operand_seed(seed, na + nb),
            2 * c.half as nat,
        )
    }

    /// The first two rows of the tile of `A`.
    pub open spec fn tile_a(&self, x: &EinsumInput<T>) -> Seq<T> {
        let width = 2 * x.shape.a as int;
        Seq::new((2 * width) as nat, |q: int| self.ops.stacked(x, q / width, q % width))
    }

    /// The first two rows of the tile of `B`.
    pub open spec fn tile_b(&self, x: &EinsumInput<T>) -> Seq<T> {
        let width = tile_width(x.shape.b);
        Seq::new((2 * width) as nat, |q: int| x.b_at(q / width, q % width))
    }

    /// Whether a report is that of a check on the given operands.
    pub open spec fn reports(
        &self,
        c: CheckSizes,
        x: &EinsumInput<T>,
        report: CheckReport<T>,
    ) -> bool {
        let cells = (c.a * c.b) as nat;
        let zero = self.ops.zero;
        &&& report.raw@ == Seq::new(
            cells,
            |j: int|
                self.ops.raw_after(
                    x,
                    zero,
                    j / c.b as int,
                    j % c.b as int,
                    c.slices(),
                    c.slices() as nat,
                ),
        )
        &&& report.ones@ == Seq::new(
            cells,
            |j: int|
                self.ops.ones_after(
                    x,
                    zero,
                    j / c.b as int,
                    j % c.b as int,
                    c.slices(),
                    c.slices() as nat,
                ),
        )
        &&& report.ref_raw@ == Seq::new(
            cells,
            |j: int|
                value::<U, T, X>(
                    self.to_raw,
                    reference_raw::<T, U, R>(
                        self.acc_raw,
                        self.wide_zero,
                        x,
                        j / c.b as int,
                        j % c.b as int,
                        c.rows() as nat,
                    ),
                ),
        )
        &&& report.ref_ones@ == Seq::new(
            cells,
            |j: int|
                value::<U, T, Y>(
                    self.to_ones,
                    reference_ones::<T, U, O>(
                        self.acc_ones,
                        self.wide_zero,
                        x,
                        j / c.b as int,
                        j % c.b as int,
                        c.rows() as nat,
                    ),
                ),
        )
        &&& report.bad_a == mismatches::<T, D>(self.far, self.tile_a(x), self.tile_a(x))
        &&& report.bad_b == mismatches::<T, D>(self.far, self.tile_b(x), self.tile_b(x))
        &&& report.raw_gap == largest_gap::<T, L>(
            self.gap,
            zero,
            report.raw@,
            report.ref_raw@,
            cells,
        )
        &&& report.ones_gap == largest_gap::<T, L>(
            self.gap,
            zero,
            report.ones@,
            report.ref_ones@,
            cells,
        )
        &&& report.scale == largest_size::<T, K>(self.size, zero, report.ref_raw@, cells)
        &&& report.passed == value::<(T, T, T), bool, C>(
            self.close,
            (report.raw_gap, report.ones_gap, report.scale),
        )
    }

    /// Runs the kernel and the reference on operands from the generator, compares the first rows
    /// of the tiles with what they should hold, and the results with each other.
    pub fn run_test_pitched(&self, c: CheckSizes, seed: &mut u64) -> (report: CheckReport<T>)
        requires
            self.valid(),
            c.valid(),
        ensures
            *final(seed) == operand_seed(
                *old(seed),
                (c.rows() * c.a_pitch + c.rows() * c.b_pitch + 2 * c.half) as nat,
            ),
            exists|x: EinsumInput<T>| #[trigger]
                self.drawn(c, *old(seed), &x) && self.reports(c, &x, report),
    {
        let ghost seed0 = *seed;
        proof {
            check_fits(c);
        }
        let k: usize = c.half * c.r;
        let mut a_t: Vec<T> = filled(self.ops.zero, k * c.a_pitch);
        let mut b_t: Vec<T> = filled(self.ops.zero, k * c.b_pitch);
        fill_rng(&mut a_t, seed, &self.scaled);
        fill_rng(&mut b_t, seed, &self.scaled);
        let mut scores: Vec<T> = filled(self.ops.zero, 2 * c.half);
        fill_rng(&mut scores, seed, &self.scaled);
        let shape = EinsumShape::pitched(c.half, c.r, c.a, c.b, c.a_pitch, c.b_pitch);
        let x = EinsumInput {
            shape,
            a_flat: a_t.as_slice(),
            b_flat: b_t.as_slice(),
            scores: scores.as_slice(),
        };
        proof {
            let (na, nb) = ((c.rows() * c.a_pitch) as nat, (c.rows() * c.b_pitch) as nat);
            operand_seed_adds(seed0, na, nb);
            operand_seed_adds(seed0, na + nb, 2 * c.half as nat);
            assert(x.a_flat@ =~= operands::<T, F>(self.scaled, seed0, na));
            assert(x.b_flat@ =~= operands::<T, F>(self.scaled, operand_seed(seed0, na), nb));
            assert(x.scores@ =~= operands::<T, F>(
                self.scaled,
                operand_seed(seed0, na + nb),
                2 * c.half as nat,
            ));
            assert(self.drawn(c, seed0, &x));
        }
        let report = self.compare(c, &x);
        report
    }

    /// Compares the kernel with its reference on given operands.
    fn compare(&self, c: CheckSizes, x: &EinsumInput<T>) -> (report: CheckReport<T>)
        requires
            self.valid(),
            c.valid(),
            x.valid(),
            x.shape.half == c.half,
            x.shape.r == c.r,
            x.shape.a == c.a,
            x.shape.b == c.b,
        ensures
            self.reports(c, x, report),
    {
        let cells: usize = c.a * c.b;
        let k: usize = c.half * c.r;
        let slices: usize = launch_grid(c.b, k, CHECK_ROWS).1;
        let mut raw: Vec<T> = filled(self.ops.zero, cells);
        let mut ones: Vec<T> = filled(self.ops.zero, cells);
        proof {
            assert(slices <= k) by (nonlinear_arith)
                requires
                    slices == (k + 4000 - 1) / 4000,
                    k >= 1,
            ;
        }
        self.ops.einsum_pair_fused(x, &mut raw, &mut ones, c.b, slices);
        let (ref_raw, ref_ones): (Vec<T>, Vec<T>) = cpu_ref(
            x,
            self.wide_zero,
            &self.acc_raw,
            &self.acc_ones,
            &self.to_raw,
            &self.to_ones,
        );
        let bad_a: usize = self.wrong_in_a(x);
        let bad_b: usize = self.wrong_in_b(x);
        let raw_gap: T = self.largest_gap_of(&raw, &ref_raw);
        let ones_gap: T = self.largest_gap_of(&ones, &ref_ones);
        let scale: T = self.largest_size_of(&ref_raw);
        let passed: bool = apply(&self.close, (raw_gap, ones_gap, scale));
        let report = CheckReport {
            raw,
            ones,
            ref_raw,
            ref_ones,
            bad_a,
            bad_b,
            raw_gap,
            ones_gap,
            scale,
            passed,
        };
        proof {
            assert forall|j: int| 0 <= j < cells implies #[trigger] in_matrix(
                x.shape,
                c.b as int,
                j,
            ) by {
                assert(j / (c.b as int) < c.a) by (nonlinear_arith)
                    requires
                        0 <= j < c.a * c.b,
                        c.b > 0,
                ;
            }
            assert forall|j: int| 0 <= j < cells implies #[trigger] report.raw@[j]
                == self.ops.raw_after(
                x,
                self.ops.zero,
                j / c.b as int,
                j % c.b as int,
                c.slices(),
                c.slices() as nat,
            ) by {
                assert(in_matrix(x.shape, c.b as int, j));
            }
            assert forall|j: int| 0 <= j < cells implies #[trigger] report.ones@[j]
                == self.ops.ones_after(
                x,
                self.ops.zero,
                j / c.b as int,
                j % c.b as int,
                c.slices(),
                c.slices() as nat,
            ) by {
                assert(in_matrix(x.shape, c.b as int, j));
            }
            assert(report.raw@ =~= Seq::new(
                cells as nat,
                |j: int|
                    self.ops.raw_after(
                        x,
                        self.ops.zero,
                        j / c.b as int,
                        j % c.b as int,
                        c.slices(),
                        c.slices() as nat,
                    ),
            ));
            assert(report.ones@ =~= Seq::new(
                cells as nat,
                |j: int|
                    self.ops.ones_after(
                        x,
                        self.ops.zero,
                        j / c.b as int,
                        j % c.b as int,
                        c.slices(),
                        c.slices() as nat,
                    ),
            ));
            assert(report.ref_raw@ =~= Seq::new(
                cells as nat,
                |j: int|
                    value::<U, T, X>(
                        self.to_raw,
                        reference_raw::<T, U, R>(
                            self.acc_raw,
                            self.wide_zero,
                            x,
                            j / c.b as int,
                            j % c.b as int,
                            c.rows() as nat,
                        ),
                    ),
            ));
            assert(report.ref_ones@ =~= Seq::new(
                cells as nat,
                |j: int|
                    value::<U, T, Y>(
                        self.to_ones,
                        reference_ones::<T, U, O>(
                            self.acc_ones,
                            self.wide_zero,
                            x,
                            j / c.b as int,
                            j % c.b as int,
                            c.rows() as nat,
                        ),
                    ),
            ));
        }
        report
    }

    /// Counts the wrong elements in the first two rows of the tile of `A`.
    fn wrong_in_a(&self, x: &EinsumInput<T>) -> (n: usize)
        requires
            self.valid(),
            x.valid(),
            0 < x.shape.a,
            0 < x.shape.b,
            2 <= x.shape.rows(),
        ensures
            n == mismatches::<T, D>(self.far, self.tile_a(x), self.tile_a(x)),
    {
        let s = x.shape;
        let width: usize = 2 * s.a;
        let (tile, _): (Vec<T>, Vec<T>) = self.ops.einsum_pair_dump_tiles(x);
        let mut got: Vec<T> = Vec::new();
        let mut exp: Vec<T> = Vec::new();
        let mut q: usize = 0;
        while q < 2 * width
            invariant
                self.valid(),
                x.valid(),
                s == x.shape,
                2 <= s.rows(),
                width == 2 * s.a,
                0 < width <= 256,
                q <= 2 * width,
                tile@.len() == 514,
                forall|p: int|
                    0 <= p < 514 && p % 257 < 2 * s.a ==> #[trigger] tile@[p] == self.ops.stacked(
                        x,
                        p / 257,
                        p % 257,
                    ),
                got@ == self.tile_a(x).take(q as int),
                exp@ == self.tile_a(x).take(q as int),
            decreases 2 * width - q,
        {
            let row: usize = q / width;
            let m2: usize = q % width;
            proof {
                assert(row < 2) by (nonlinear_arith)
                    requires
                        row == q as int / width as int,
                        q < 2 * width,
                        0 < width,
                ;
                let p = row * 257 + m2;
                assert(p / 257 == row && p % 257 == m2);
            }
            got.push(tile[row * 257 + m2]);
            exp.push(self.ops.stacked_at(x, row, m2));
            proof {
                assert(got@ =~= self.tile_a(x).take(q + 1));
                assert(exp@ =~= self.tile_a(x).take(q + 1));
            }
            q = q + 1;
        }
        proof {
            assert(self.tile_a(x).take(q as int) =~= self.tile_a(x));
        }
        count_mismatches(got.as_slice(), exp.as_slice(), &self.far)
    }

    /// Counts the wrong elements in the first two rows of the tile of `B`.
    fn wrong_in_b(&self, x: &EinsumInput<T>) -> (n: usize)
        requires
            self.valid(),
            x.valid(),
            0 < x.shape.b,
            2 <= x.shape.rows(),
        ensures
            n == mismatches::<T, D>(self.far, self.tile_b(x), self.tile_b(x)),
    {
        let s = x.shape;
        let width: usize = if s.b < BN {
            s.b
        } else {
            BN
        };
        let (_, tile): (Vec<T>, Vec<T>) = self.ops.einsum_pair_dump_tiles(x);
        let mut got: Vec<T> = Vec::new();
        let mut exp: Vec<T> = Vec::new();
        let mut q: usize = 0;
        while q < 2 * width
            invariant
                self.valid(),
                x.valid(),
                s == x.shape,
                2 <= s.rows(),
                width == tile_width(s.b),
                0 < width <= 112,
                width <= s.b,
                q <= 2 * width,
                tile@.len() == 224,
                forall|p: int|
                    0 <= p < 224 && p % 112 < s.b ==> #[trigger] tile@[p] == x.b_at(
                        p / 112,
                        p % 112,
                    ),
                got@ == self.tile_b(x).take(q as int),
                exp@ == self.tile_b(x).take(q as int),
            decreases 2 * width - q,
        {
            let row: usize = q / width;
            let n: usize = q % width;
            proof {
                assert(row < 2) by (nonlinear_arith)
                    requires
                        row == q as int / width as int,
                        q < 2 * width,
                        0 < width,
                ;
                let p = row * 112 + n;
                assert(p / 112 == row && p % 112 == n);
            }
            got.push(tile[row * 112 + n]);
            exp.push(x.element_of_b(row, n));
            proof {
                assert(got@ =~= self.tile_b(x).take(q + 1));
                assert(exp@ =~= self.tile_b(x).take(q + 1));
            }
            q = q + 1;
        }
        proof {
            assert(self.tile_b(x).take(q as int) =~= self.tile_b(x));
        }
        count_mismatches(got.as_slice(), exp.as_slice(), &self.far)
    }

    /// Finds the largest gap between two lists.
    fn largest_gap_of(&self, got: &Vec<T>, exp: &Vec<T>) -> (gap: T)
        requires
            self.valid(),
            got@.len() == exp@.len(),
        ensures
            gap == largest_gap::<T, L>(self.gap, self.ops.zero, got@, exp@, got@.len()),
    {
        let mut gap: T = self.ops.zero;
        let mut i: usize = 0;
        while i < got.len()
            invariant
                self.valid(),
                got@.len() == exp@.len(),
                i <= got@.len(),
                gap == largest_gap::<T, L>(self.gap, self.ops.zero, got@, exp@, i as nat),
            decreases got@.len() - i,
        {
            gap = apply(&self.gap, (gap, got[i], exp[i]));
            i = i + 1;
        }
        gap
    }

    /// Finds the largest size in a list.
    fn largest_size_of(&self, list: &Vec<T>) -> (size: T)
        requires
            self.valid(),
        ensures
            size == largest_size::<T, K>(self.size, self.ops.zero, list@, list@.len()),
    {
        let mut size: T = self.ops.zero;
        let mut i: usize = 0;
        while i < list.len()
            invariant
                self.valid(),
                i <= list@.len(),
                size == largest_size::<T, K>(self.size, self.ops.zero, list@, i as nat),
            decreases list@.len() - i,
        {
            size = apply(&self.size, (size, list[i]));
            i = i + 1;
        }
        size
    }

    /// The kernel loads its tiles right: where no element is far from itself, no element of a tile
    /// is wrong.
    pub proof fn tiles_are_right(&self, c: CheckSizes, x: &EinsumInput<T>, report: CheckReport<T>)
        requires
            self.reports(c, x, report),
            forall|v: T| !#[trigger] value::<(T, T), bool, D>(self.far, (v, v)),
        ensures
            report.bad_a == 0,
            report.bad_b == 0,
    {
        none_far_from_itself::<T, D>(self.far, self.tile_a(x));
        none_far_from_itself::<T, D>(self.far, self.tile_b(x));
    }
}

proof fn none_far_from_itself<T, D: Fn((T, T)) -> bool>(far: D, s: Seq<T>)
    requires
        forall|v: T| !#[trigger] value::<(T, T), bool, D>(far, (v, v)),
    ensures
        mismatches::<T, D>(far, s, s) == 0,
    decreases s.len(),
{
    if s.len() > 0 {
        none_far_from_itself::<T, D>(far, s.drop_last());
    }
}

/// How many columns of `B` a tile holds.
pub open spec fn tile_width(b: usize) -> int {
    if b < BN {
        b as int
    } else {
        BN as int
    }
}

/// The operands of a check hold what their shape says.
proof fn check_fits(c: CheckSizes)
    requires
        c.valid(),
    ensures
        c.r * c.a_pitch <= usize::MAX,
        c.r * c.b_pitch <= usize::MAX,
        rows_fit(
            (c.rows() * c.a_pitch) as nat,
            c.half as int,
            c.r as int,
            c.r * c.a_pitch,
            c.a_pitch as int,
            c.a as int,
        ),
        rows_fit(
            (c.rows() * c.b_pitch) as nat,
            c.half as int,
            c.r as int,
            c.r * c.b_pitch,
            c.b_pitch as int,
            c.b as int,
        ),
{
    assert(c.half >= 1 && c.r >= 1) by (nonlinear_arith)
        requires
            2 <= c.half * c.r,
            0 <= c.half,
            0 <= c.r,
    ;
    pitch_fits(c.half as int, c.r as int, c.a_pitch as int, c.a as int);
    pitch_fits(c.half as int, c.r as int, c.b_pitch as int, c.b as int);
}

proof fn pitch_fits(half: int, r: int, pitch: int, width: int)
    requires
        1 <= half,
        1 <= r,
        0 <= width <= pitch,
    ensures
        r * pitch <= half * r * pitch,
        (half - 1) * (r * pitch) + (r - 1) * pitch + width <= half * r * pitch,
{
    assert(half * r * pitch == (half - 1) * (r * pitch) + r * pitch) by (nonlinear_arith);
    assert(r * pitch == (r - 1) * pitch + pitch) by (nonlinear_arith);
    assert((half - 1) * (r * pitch) >= 0) by (nonlinear_arith)
        requires
            half >= 1,
            r >= 1,
            pitch >= 0,
    ;
}

} // verus!
