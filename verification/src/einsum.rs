//! The paired einsum kernel.
//!
//! `A` holds `half * r` rows of `a` elements and `B` as many rows of `b`; row
//! `i * r + j` belongs to sample pair `i`. The kernel accumulates two `(a, b)`
//! matrices: the products of the rows of `A`, weighted by the pair's scores,
//! with the rows of `B`; and twice the products of the plain rows. It stacks the
//! weighted and the plain columns of `A` to `2 * a` columns, splits the rows into
//! slices and the columns of `B` into tiles, and works on one slice and one tile
//! per block of threads, each thread holding eight by seven accumulators.
//!
//! Element arithmetic is handed in by the caller, so the contracts say in which
//! order it is applied: within a slice by row, over the slices by slice.

use vstd::arithmetic::div_mod::*;
use vstd::prelude::*;

use crate::ops::{apply, computes, value};
use crate::split::{filled, parts, slice_bounds, slice_end, slice_start, slices_partition};

verus! {

/// Rows per step of a block.
pub const BK: usize = 32;

/// Columns of `B` per block.
pub const BN: usize = 112;

/// The most stacked columns of `A`.
pub const M_MAX: usize = 256;

/// The row length of the tile of `A`.
pub const APAD: usize = 257;

/// Threads per block.
pub const THREADS: usize = 512;

/// Accumulators per block.
pub const ACCUMULATORS: usize = 28672;

// ---------------------------------------------------------------------------
// Shapes
// ---------------------------------------------------------------------------
/// The shape and strides of the operands.
#[derive(Clone, Copy, Debug, PartialEq, Eq, Structural)]
pub struct EinsumShape {
    /// Number of sample pairs.
    pub half: usize,
    /// Rank: rows per sample pair.
    pub r: usize,
    /// Columns of `A`.
    pub a: usize,
    /// Distance between the sample pairs of `A`.
    pub a_s0: usize,
    /// Distance between the rows of `A`.
    pub a_s1: usize,
    /// Columns of `B`.
    pub b: usize,
    /// Distance between the sample pairs of `B`.
    pub b_s0: usize,
    /// Distance between the rows of `B`.
    pub b_s1: usize,
}

/// Where a row starts.
pub open spec fn row_start(row: int, r: int, s0: int, s1: int) -> int {
    row / r * s0 + row % r * s1
}

/// Whether rows of `width` elements fit into `len` elements.
pub open spec fn rows_fit(len: nat, half: int, r: int, s0: int, s1: int, width: int) -> bool {
    (half - 1) * s0 + (r - 1) * s1 + width <= len
}

impl EinsumShape {
    /// The number of rows.
    pub open spec fn rows(self) -> int {
        self.half * self.r
    }

    /// There is a row, the stacked columns fit a tile, and counts stay in the machine's range.
    pub open spec fn valid(self) -> bool {
        &&& 0 < self.rows() <= usize::MAX
        &&& 2 * self.a <= M_MAX
        &&& 2 * self.half <= usize::MAX
        &&& self.b + BN <= usize::MAX
    }

    /// The shape of operands whose rows start `a_pitch` and `b_pitch` apart.
    pub fn pitched(
        half: usize,
        r: usize,
        a: usize,
        b: usize,
        a_pitch: usize,
        b_pitch: usize,
    ) -> (shape: EinsumShape)
        requires
            r * a_pitch <= usize::MAX,
            r * b_pitch <= usize::MAX,
        ensures
            shape == (EinsumShape {
                half,
                r,
                a,
                a_s0: (r * a_pitch) as usize,
                a_s1: a_pitch,
                b,
                b_s0: (r * b_pitch) as usize,
                b_s1: b_pitch,
            }),
            forall|row: int|
                0 < r ==> #[trigger] row_start(row, r as int, shape.a_s0 as int, shape.a_s1 as int)
                    == row * a_pitch,
            forall|row: int|
                0 < r ==> #[trigger] row_start(row, r as int, shape.b_s0 as int, shape.b_s1 as int)
                    == row * b_pitch,
    {
        proof {
            if 0 < r {
                assert forall|row: int| #[trigger]
                    row_start(row, r as int, r * a_pitch, a_pitch as int) == row * a_pitch by {
                    contiguous_rows(row, r as int, a_pitch as int);
                }
                assert forall|row: int| #[trigger]
                    row_start(row, r as int, r * b_pitch, b_pitch as int) == row * b_pitch by {
                    contiguous_rows(row, r as int, b_pitch as int);
                }
            }
        }
        EinsumShape {
            half,
            r,
            a,
            a_s0: r * a_pitch,
            a_s1: a_pitch,
            b,
            b_s0: r * b_pitch,
            b_s1: b_pitch,
        }
    }
}

/// With sample pairs right behind each other, rows are evenly spaced.
proof fn contiguous_rows(row: int, r: int, pitch: int)
    requires
        0 < r,
    ensures
        row_start(row, r, r * pitch, pitch) == row * pitch,
{
    lemma_fundamental_div_mod(row, r);
    let i = row / r;
    let j = row % r;
    assert(i * (r * pitch) + j * pitch == (r * i + j) * pitch) by (nonlinear_arith);
}

/// The row length, in elements, of a row of `n` four-byte elements padded to sixteen bytes.
pub fn default_pitch(n: usize) -> (pitch: usize)
    requires
        n * 4 + 15 <= usize::MAX,
    ensures
        pitch == (n * 4 + 15) / 16 * 4,
        n <= pitch < n + 4,
        pitch % 4 == 0,
{
    (n * 4 + 15) / 16 * 4
}

/// How a launch covers the work: tiles of columns by slices of rows.
pub fn launch_grid(b: usize, k_total: usize, rows_per_slice: usize) -> (grid: (usize, usize))
    requires
        b + BN <= usize::MAX,
        0 < rows_per_slice,
        k_total + rows_per_slice <= usize::MAX,
    ensures
        grid.0 == parts(b as int, BN as int),
        grid.1 == (if k_total == 0 {
            1
        } else {
            parts(k_total as int, rows_per_slice as int)
        }),
        grid.1 >= 1,
        b <= grid.0 * BN,
{
    let tiles: usize = (b + BN - 1) / BN;
    let slices: usize = (k_total + rows_per_slice - 1) / rows_per_slice;
    proof {
        let n = k_total + rows_per_slice - 1;
        lemma_fundamental_div_mod(n, rows_per_slice as int);
        if k_total > 0 {
            lemma_div_is_ordered(rows_per_slice as int, n, rows_per_slice as int);
            lemma_div_by_self(rows_per_slice as int);
        } else {
            lemma_basic_div(n, rows_per_slice as int);
        }
    }
    if slices < 1 {
        (tiles, 1)
    } else {
        (tiles, slices)
    }
}

// ---------------------------------------------------------------------------
// Operands and operations
// ---------------------------------------------------------------------------
/// The operands.
pub struct EinsumInput<'a, T> {
    /// The shape and strides.
    pub shape: EinsumShape,
    /// The rows of `A`.
    pub a_flat: &'a [T],
    /// The rows of `B`.
    pub b_flat: &'a [T],
    /// One score per sample: those of the pairs' first halves, then those of their second.
    pub scores: &'a [T],
}

impl<'a, T> EinsumInput<'a, T> {
    /// The operands hold what their shape says.
    pub open spec fn valid(&self) -> bool {
        let s = self.shape;
        &&& s.valid()
        &&& rows_fit(
            self.a_flat@.len(),
            s.half as int,
            s.r as int,
            s.a_s0 as int,
            s.a_s1 as int,
            s.a as int,
        )
        &&& rows_fit(
            self.b_flat@.len(),
            s.half as int,
            s.r as int,
            s.b_s0 as int,
            s.b_s1 as int,
            s.b as int,
        )
        &&& 2 * s.half <= self.scores@.len()
    }

    /// Element `m` of row `row` of `A`.
    pub open spec fn a_at(&self, row: int, m: int) -> T {
        let s = self.shape;
        self.a_flat@[row_start(row, s.r as int, s.a_s0 as int, s.a_s1 as int) + m]
    }

    /// Element `n` of row `row` of `B`.
    pub open spec fn b_at(&self, row: int, n: int) -> T {
        let s = self.shape;
        self.b_flat@[row_start(row, s.r as int, s.b_s0 as int, s.b_s1 as int) + n]
    }
}

impl<'a, T: Copy> EinsumInput<'a, T> {
    /// Element `n` of row `row` of `B`.
    pub fn element_of_b(&self, row: usize, n: usize) -> (e: T)
        requires
            self.valid(),
            row < self.shape.rows(),
            n < self.shape.b,
        ensures
            e == self.b_at(row as int, n as int),
    {
        let s = self.shape;
        let off: usize = row_offset(row, s.half, s.r, s.b_s0, s.b_s1, s.b, self.b_flat.len());
        self.b_flat[off + n]
    }

    /// Element `m` of row `row` of `A`.
    pub fn element_of_a(&self, row: usize, m: usize) -> (e: T)
        requires
            self.valid(),
            row < self.shape.rows(),
            m < self.shape.a,
        ensures
            e == self.a_at(row as int, m as int),
    {
        let s = self.shape;
        let off: usize = row_offset(row, s.half, s.r, s.a_s0, s.a_s1, s.a, self.a_flat.len());
        self.a_flat[off + m]
    }
}

/// The element operations: `zero`; `weight` of an element and the two scores of its pair; `fma`
/// of an accumulator and two factors; `add` and `add_double` of an output and an accumulator.
pub struct EinsumOps<T, W, M, P, Q> {
    /// The empty sum.
    pub zero: T,
    /// An element times the sum of two scores.
    pub weight: W,
    /// An accumulator plus a product.
    pub fma: M,
    /// An output plus an accumulator.
    pub add: P,
    /// An output plus twice an accumulator.
    pub add_double: Q,
}

/// Where a row starts.
fn row_offset(
    row: usize,
    half: usize,
    r: usize,
    s0: usize,
    s1: usize,
    width: usize,
    len: usize,
) -> (off: usize)
    requires
        0 < r,
        row < half * r,
        rows_fit(len as nat, half as int, r as int, s0 as int, s1 as int, width as int),
    ensures
        off == row_start(row as int, r as int, s0 as int, s1 as int),
        off + width <= len,
{
    proof {
        lemma_fundamental_div_mod(row as int, r as int);
        let i = row as int / r as int;
        let j = row as int % r as int;
        assert(0 <= i <= half - 1) by (nonlinear_arith)
            requires
                row < half * r,
                row == r * i + j,
                0 <= j < r,
                0 <= row,
        ;
        assert(0 <= i * s0 <= (half - 1) * s0) by (nonlinear_arith)
            requires
                0 <= i <= half - 1,
                s0 >= 0,
        ;
        assert(0 <= j * s1 <= (r - 1) * s1) by (nonlinear_arith)
            requires
                0 <= j <= r - 1,
                s1 >= 0,
        ;
    }
    row / r * s0 + row % r * s1
}

impl<
    T: Copy,
    W: Fn((T, T, T)) -> T,
    M: Fn((T, T, T)) -> T,
    P: Fn((T, T)) -> T,
    Q: Fn((T, T)) -> T,
> EinsumOps<T, W, M, P, Q> {
    /// Each operation gives one result for each argument.
    pub open spec fn valid(&self) -> bool {
        &&& computes::<(T, T, T), T, W>(self.weight)
        &&& computes::<(T, T, T), T, M>(self.fma)
        &&& computes::<(T, T), T, P>(self.add)
        &&& computes::<(T, T), T, Q>(self.add_double)
    }

    /// Stacked column `m2` of row `row`: the weighted columns of `A`, then the plain ones.
    pub open spec fn stacked(&self, x: &EinsumInput<T>, row: int, m2: int) -> T {
        let s = x.shape;
        if m2 < s.a {
            value::<(T, T, T), T, W>(
                self.weight,
                (
                    x.a_at(row, m2),
                    x.scores@[row / s.r as int],
                    x.scores@[row / s.r as int + s.half],
                ),
            )
        } else {
            x.a_at(row, m2 - s.a)
        }
    }

    /// Stacked column `m2` of row `row`.
    pub fn stacked_at(&self, x: &EinsumInput<T>, row: usize, m2: usize) -> (e: T)
        requires
            self.valid(),
            x.valid(),
            row < x.shape.rows(),
            m2 < 2 * x.shape.a,
        ensures
            e == self.stacked(x, row as int, m2 as int),
    {
        let s = x.shape;
        if m2 < s.a {
            let i: usize = row / s.r;
            proof {
                lemma_fundamental_div_mod(row as int, s.r as int);
                assert(i < s.half) by (nonlinear_arith)
                    requires
                        row < s.half * s.r,
                        i == row as int / s.r as int,
                        s.r > 0,
                ;
            }
            apply(&self.weight, (x.element_of_a(row, m2), x.scores[i], x.scores[i + s.half]))
        } else {
            x.element_of_a(row, m2 - s.a)
        }
    }

    /// The sum of the products of stacked column `m2` and column `n` over the rows `lo` to `hi`,
    /// added up row by row.
    pub open spec fn partial(&self, x: &EinsumInput<T>, m2: int, n: int, lo: int, hi: int) -> T
        decreases hi - lo,
    {
        if hi <= lo {
            self.zero
        } else {
            value::<(T, T, T), T, M>(
                self.fma,
                (
                    self.partial(x, m2, n, lo, hi - 1),
                    self.stacked(x, hi - 1, m2),
                    x.b_at(hi - 1, n),
                ),
            )
        }
    }

    /// Element `(m, n)` of the weighted matrix after `q` of `slices` slices, from `g`.
    pub open spec fn raw_after(
        &self,
        x: &EinsumInput<T>,
        g: T,
        m: int,
        n: int,
        slices: int,
        q: nat,
    ) -> T
        decreases q,
    {
        if q == 0 {
            g
        } else {
            value::<(T, T), T, P>(
                self.add,
                (
                    self.raw_after(x, g, m, n, slices, (q - 1) as nat),
                    self.partial(
                        x,
                        m,
                        n,
                        slice_start(x.shape.rows(), slices, q - 1),
                        slice_end(x.shape.rows(), slices, q - 1),
                    ),
                ),
            )
        }
    }

    /// Element `(m, n)` of the plain matrix after `q` of `slices` slices, from `g`.
    pub open spec fn ones_after(
        &self,
        x: &EinsumInput<T>,
        g: T,
        m: int,
        n: int,
        slices: int,
        q: nat,
    ) -> T
        decreases q,
    {
        if q == 0 {
            g
        } else {
            value::<(T, T), T, Q>(
                self.add_double,
                (
                    self.ones_after(x, g, m, n, slices, (q - 1) as nat),
                    self.partial(
                        x,
                        x.shape.a + m,
                        n,
                        slice_start(x.shape.rows(), slices, q - 1),
                        slice_end(x.shape.rows(), slices, q - 1),
                    ),
                ),
            )
        }
    }
}

// ---------------------------------------------------------------------------
// Threads and accumulators
// ---------------------------------------------------------------------------
/// The stacked column of accumulator `e`: thread `e / 56` has the eight columns from eight times
/// its number modulo 32.
pub open spec fn column_of(e: int) -> int {
    8 * (e / 56 % 32) + e % 56 / 7
}

/// The column within the tile of accumulator `e`: thread `e / 56` has the seven columns from
/// seven times its number divided by 32.
pub open spec fn tile_column_of(e: int) -> int {
    7 * (e / 56 / 32) + e % 56 % 7
}

/// The accumulator of stacked column `m2` and tile column `n`.
pub open spec fn accumulator_of(m2: int, n: int) -> int {
    (n / 7 * 32 + m2 / 8) * 56 + (m2 % 8 * 7 + n % 7)
}

/// Each cell of a tile has exactly one accumulator, and each accumulator one cell.
pub proof fn one_accumulator_per_cell(e: int, m2: int, n: int)
    ensures
        0 <= e < ACCUMULATORS ==> 0 <= column_of(e) < M_MAX && 0 <= tile_column_of(e) < BN
            && accumulator_of(column_of(e), tile_column_of(e)) == e,
        0 <= m2 < M_MAX && 0 <= n < BN ==> 0 <= accumulator_of(m2, n) < ACCUMULATORS && column_of(
            accumulator_of(m2, n),
        ) == m2 && tile_column_of(accumulator_of(m2, n)) == n,
{
    if 0 <= e < ACCUMULATORS {
        let tid = e / 56;
        let rest = e % 56;
        assert(0 <= tid < 512);
        assert(column_of(e) / 8 == tid % 32 && column_of(e) % 8 == rest / 7);
        assert(tile_column_of(e) / 7 == tid / 32 && tile_column_of(e) % 7 == rest % 7);
    }
    if 0 <= m2 < M_MAX && 0 <= n < BN {
        let tid = n / 7 * 32 + m2 / 8;
        let rest = m2 % 8 * 7 + n % 7;
        assert(0 <= rest < 56);
        assert(tid / 32 == n / 7 && tid % 32 == m2 / 8);
        lemma_fundamental_div_mod_converse(tid * 56 + rest, 56, tid, rest);
        assert(rest / 7 == m2 % 8 && rest % 7 == n % 7);
    }
}

/// A tile row's element, found again from its index.
proof fn tile_cell(k: int, c: int, width: int)
    requires
        0 <= k,
        0 <= c < width,
    ensures
        (k * width + c) / width == k,
        (k * width + c) % width == c,
        0 <= k * width,
{
    lemma_fundamental_div_mod_converse(k * width + c, width, k, c);
    assert(0 <= k * width) by (nonlinear_arith)
        requires
            0 <= k,
            0 < width,
    ;
}

impl<
    T: Copy,
    W: Fn((T, T, T)) -> T,
    M: Fn((T, T, T)) -> T,
    P: Fn((T, T)) -> T,
    Q: Fn((T, T)) -> T,
> EinsumOps<T, W, M, P, Q> {
    /// The tile of `A` holds the stacked columns of the rows from `kc`.
    pub open spec fn a_tile_holds(
        &self,
        x: &EinsumInput<T>,
        tile: Seq<T>,
        kc: int,
        klen: int,
    ) -> bool {
        &&& tile.len() == BK * APAD
        &&& forall|q: int|
            0 <= q < tile.len() && q / 257 < klen && q % 257 < 2 * x.shape.a ==> #[trigger] tile[q]
                == self.stacked(x, kc + q / 257, q % 257)
    }

    /// Loads the stacked columns of the rows `kc` to `kc + klen` into the tile of `A`.
    fn fill_a(&self, x: &EinsumInput<T>, kc: usize, klen: usize, tile: &mut Vec<T>)
        requires
            self.valid(),
            x.valid(),
            klen <= BK,
            kc + klen <= x.shape.rows(),
            old(tile)@.len() == BK * APAD,
        ensures
            self.a_tile_holds(x, final(tile)@, kc as int, klen as int),
    {
        let s = x.shape;
        let m2max: usize = 2 * s.a;
        proof {
            assert(klen * m2max <= 32 * 256) by (nonlinear_arith)
                requires
                    0 <= klen <= 32,
                    0 <= m2max <= 256,
            ;
            assert forall|q: int|
                0 <= q && q / 257 < klen && q % 257 < m2max implies #[trigger] (q / 257) * m2max + q
                % 257 < klen * m2max && (q / 257) * m2max + q % 257 >= 0 by {
                assert((q / 257) * m2max + m2max <= klen * m2max) by (nonlinear_arith)
                    requires
                        q / 257 + 1 <= klen,
                        0 <= m2max,
                ;
                assert((q / 257) * m2max >= 0) by (nonlinear_arith)
                    requires
                        q / 257 >= 0,
                        0 <= m2max,
                ;
            }
        }
        let mut idx: usize = 0;
        while idx < klen * m2max
            invariant
                self.valid(),
                x.valid(),
                s == x.shape,
                m2max == 2 * s.a,
                klen <= 32,
                klen * m2max <= 32 * 256,
                kc + klen <= s.rows(),
                tile@.len() == 32 * 257,
                forall|q: int|
                    0 <= q < tile@.len() && q / 257 < klen && q % 257 < m2max && (q / 257) * m2max
                        + q % 257 < idx ==> #[trigger] tile@[q] == self.stacked(
                        x,
                        kc + q / 257,
                        q % 257,
                    ),
            decreases klen * m2max - idx,
        {
            proof {
                assert(m2max > 0) by (nonlinear_arith)
                    requires
                        0 <= idx < klen * m2max,
                        m2max >= 0,
                ;
                lemma_fundamental_div_mod(idx as int, m2max as int);
                let k0 = idx as int / m2max as int;
                let m0 = idx as int % m2max as int;
                assert(0 <= k0 < klen) by (nonlinear_arith)
                    requires
                        idx == m2max * k0 + m0,
                        0 <= m0 < m2max,
                        0 <= idx < klen * m2max,
                ;
                tile_cell(k0, m0, 257);
                assert(s.r > 0) by (nonlinear_arith)
                    requires
                        s.half * s.r > 0,
                        s.r >= 0,
                ;
            }
            let k: usize = idx / m2max;
            let m2: usize = idx % m2max;
            let row: usize = kc + k;
            let off: usize = row_offset(row, s.half, s.r, s.a_s0, s.a_s1, s.a, x.a_flat.len());
            let at: usize = k * 257 + m2;
            if m2 < s.a {
                let i: usize = row / s.r;
                proof {
                    lemma_fundamental_div_mod(row as int, s.r as int);
                    assert(i < s.half) by (nonlinear_arith)
                        requires
                            row < s.half * s.r,
                            i == row as int / s.r as int,
                            s.r > 0,
                    ;
                }
                let weighted: T = apply(
                    &self.weight,
                    (x.a_flat[off + m2], x.scores[i], x.scores[i + s.half]),
                );
                tile.set(at, weighted);
            } else {
                tile.set(at, x.a_flat[off + (m2 - s.a)]);
            }
            proof {
                assert forall|q: int|
                    0 <= q < tile@.len() && q / 257 < klen && q % 257 < m2max && (q / 257) * m2max
                        + q % 257 < idx + 1 implies #[trigger] tile@[q] == self.stacked(
                    x,
                    kc + q / 257,
                    q % 257,
                ) by {
                    if (q / 257) * m2max + q % 257 == idx {
                        lemma_fundamental_div_mod_converse(
                            idx as int,
                            m2max as int,
                            q / 257,
                            q % 257,
                        );
                        assert(q == at);
                    }
                }
            }
            idx = idx + 1;
        }
    }

    /// The tile of `B` holds the columns from `n0` of the rows from `kc`.
    pub open spec fn b_tile_holds(
        &self,
        x: &EinsumInput<T>,
        tile: Seq<T>,
        n0: int,
        kc: int,
        klen: int,
    ) -> bool {
        &&& tile.len() == BK * BN
        &&& forall|q: int|
            0 <= q < tile.len() && q / 112 < klen && n0 + q % 112 < x.shape.b ==> #[trigger] tile[q]
                == x.b_at(kc + q / 112, n0 + q % 112)
    }

    /// Loads the columns from `n0` of the rows `kc` to `kc + klen` into the tile of `B`.
    fn fill_b(&self, x: &EinsumInput<T>, n0: usize, kc: usize, klen: usize, tile: &mut Vec<T>)
        requires
            x.valid(),
            n0 < x.shape.b,
            klen <= BK,
            kc + klen <= x.shape.rows(),
            old(tile)@.len() == BK * BN,
        ensures
            self.b_tile_holds(x, final(tile)@, n0 as int, kc as int, klen as int),
    {
        let s = x.shape;
        let mut idx: usize = 0;
        while idx < klen * 112
            invariant
                x.valid(),
                s == x.shape,
                n0 < s.b,
                klen <= 32,
                kc + klen <= s.rows(),
                tile@.len() == 32 * 112,
                forall|q: int|
                    0 <= q < idx && q < tile@.len() && n0 + q % 112 < s.b ==> #[trigger] tile@[q]
                        == x.b_at(kc + q / 112, n0 + q % 112),
            decreases klen * 112 - idx,
        {
            let k: usize = idx / 112;
            let n: usize = idx % 112;
            let nn: usize = n0 + n;
            if nn < s.b {
                let row: usize = kc + k;
                proof {
                    assert(s.r > 0) by (nonlinear_arith)
                        requires
                            s.half * s.r > 0,
                            s.r >= 0,
                    ;
                }
                let off: usize = row_offset(row, s.half, s.r, s.b_s0, s.b_s1, s.b, x.b_flat.len());
                tile.set(k * 112 + n, x.b_flat[off + nn]);
            }
            idx = idx + 1;
        }
    }

    /// An accumulator after `k` rows of a tile.
    pub open spec fn dot(&self, acc: T, ta: Seq<T>, tb: Seq<T>, m2: int, n: int, k: nat) -> T
        decreases k,
    {
        if k == 0 {
            acc
        } else {
            value::<(T, T, T), T, M>(
                self.fma,
                (
                    self.dot(acc, ta, tb, m2, n, (k - 1) as nat),
                    ta[(k - 1) * 257 + m2],
                    tb[(k - 1) * 112 + n],
                ),
            )
        }
    }

    /// Adds the products of `klen` rows of the tiles to the accumulators of all threads.
    fn accumulate(&self, ta: &Vec<T>, tb: &Vec<T>, klen: usize, acc: &mut Vec<T>)
        requires
            self.valid(),
            klen <= BK,
            ta@.len() == BK * APAD,
            tb@.len() == BK * BN,
            old(acc)@.len() == ACCUMULATORS,
        ensures
            final(acc)@.len() == ACCUMULATORS,
            forall|e: int|
                0 <= e < ACCUMULATORS ==> #[trigger] final(acc)@[e] == self.dot(
                    old(acc)@[e],
                    ta@,
                    tb@,
                    column_of(e),
                    tile_column_of(e),
                    klen as nat,
                ),
    {
        let ghost before = acc@;
        let mut e: usize = 0;
        while e < ACCUMULATORS
            invariant
                self.valid(),
                klen <= 32,
                ta@.len() == 32 * 257,
                tb@.len() == 32 * 112,
                acc@.len() == before.len() == ACCUMULATORS,
                e <= ACCUMULATORS,
                forall|f: int|
                    0 <= f < ACCUMULATORS ==> #[trigger] acc@[f] == (if f < e {
                        self.dot(before[f], ta@, tb@, column_of(f), tile_column_of(f), klen as nat)
                    } else {
                        before[f]
                    }),
            decreases ACCUMULATORS - e,
        {
            let tid: usize = e / 56;
            let m2: usize = 8 * (tid % 32) + e % 56 / 7;
            let n: usize = 7 * (tid / 32) + e % 56 % 7;
            proof {
                one_accumulator_per_cell(e as int, 0, 0);
            }
            let mut sum: T = acc[e];
            let mut k: usize = 0;
            while k < klen
                invariant
                    self.valid(),
                    k <= klen <= 32,
                    m2 < 256,
                    n < 112,
                    ta@.len() == 32 * 257,
                    tb@.len() == 32 * 112,
                    sum == self.dot(before[e as int], ta@, tb@, m2 as int, n as int, k as nat),
                decreases klen - k,
            {
                sum = apply(&self.fma, (sum, ta[k * 257 + m2], tb[k * 112 + n]));
                k = k + 1;
            }
            acc.set(e, sum);
            e = e + 1;
        }
    }

    /// Over tiles that hold the rows from `kc`, an accumulator that holds the sum up to row `kc`
    /// comes to hold the sum up to row `kc + k`.
    proof fn dot_extends_partial(
        &self,
        x: &EinsumInput<T>,
        ta: Seq<T>,
        tb: Seq<T>,
        m2: int,
        n0: int,
        n: int,
        lo: int,
        kc: int,
        klen: int,
        k: nat,
    )
        requires
            self.a_tile_holds(x, ta, kc, klen),
            self.b_tile_holds(x, tb, n0, kc, klen),
            k <= klen <= BK,
            0 <= m2 < 2 * x.shape.a <= M_MAX,
            0 <= n < BN,
            n0 + n < x.shape.b,
            lo <= kc,
        ensures
            self.dot(self.partial(x, m2, n0 + n, lo, kc), ta, tb, m2, n, k) == self.partial(
                x,
                m2,
                n0 + n,
                lo,
                kc + k,
            ),
        decreases k,
    {
        if k > 0 {
            self.dot_extends_partial(
                x,
                ta,
                tb,
                m2,
                n0,
                n,
                lo,
                kc,
                klen,
                (k - 1) as nat,
            );
            tile_cell(k - 1, m2, 257);
            tile_cell(k - 1, n, 112);
            assert(ta[(k - 1) * 257 + m2] == self.stacked(x, kc + k - 1, m2));
            assert(tb[(k - 1) * 112 + n] == x.b_at(kc + k - 1, n0 + n));
        }
    }

    /// The accumulators of a block hold the sums over the rows `lo` to `hi`.
    pub open spec fn accumulated(
        &self,
        x: &EinsumInput<T>,
        acc: Seq<T>,
        n0: int,
        lo: int,
        hi: int,
    ) -> bool {
        &&& acc.len() == ACCUMULATORS
        &&& forall|e: int|
            0 <= e < ACCUMULATORS && column_of(e) < 2 * x.shape.a && n0 + tile_column_of(e)
                < x.shape.b ==> #[trigger] acc[e] == self.partial(
                x,
                column_of(e),
                n0 + tile_column_of(e),
                lo,
                hi,
            )
    }

    /// The accumulators of the block of columns from `n0` and rows `k_start` to `k_end`.
    fn block(&self, x: &EinsumInput<T>, n0: usize, k_start: usize, k_end: usize) -> (acc: Vec<T>)
        requires
            self.valid(),
            x.valid(),
            n0 < x.shape.b,
            k_end <= x.shape.rows(),
        ensures
            self.accumulated(x, acc@, n0 as int, k_start as int, k_end as int),
    {
        let mut ta: Vec<T> = filled(self.zero, 8224);
        let mut tb: Vec<T> = filled(self.zero, 3584);
        let mut acc: Vec<T> = filled(self.zero, ACCUMULATORS);
        let mut kc: usize = k_start;
        while kc < k_end
            invariant
                self.valid(),
                x.valid(),
                n0 < x.shape.b,
                k_start <= kc,
                kc <= k_end || kc == k_start,
                k_end <= x.shape.rows(),
                ta@.len() == 32 * 257,
                tb@.len() == 32 * 112,
                self.accumulated(x, acc@, n0 as int, k_start as int, kc as int),
            decreases k_end - kc,
        {
            let left: usize = k_end - kc;
            let klen: usize = if left < 32 {
                left
            } else {
                32
            };
            self.fill_a(x, kc, klen, &mut ta);
            self.fill_b(x, n0, kc, klen, &mut tb);
            let ghost before = acc@;
            self.accumulate(&ta, &tb, klen, &mut acc);
            proof {
                assert forall|e: int|
                    0 <= e < ACCUMULATORS && column_of(e) < 2 * x.shape.a && n0 + tile_column_of(e)
                        < x.shape.b implies #[trigger] acc@[e] == self.partial(
                    x,
                    column_of(e),
                    n0 + tile_column_of(e),
                    k_start as int,
                    kc + klen,
                ) by {
                    one_accumulator_per_cell(e, 0, 0);
                    assert(before[e] == self.partial(
                        x,
                        column_of(e),
                        n0 + tile_column_of(e),
                        k_start as int,
                        kc as int,
                    ));
                    self.dot_extends_partial(
                        x,
                        ta@,
                        tb@,
                        column_of(e),
                        n0 as int,
                        tile_column_of(e),
                        k_start as int,
                        kc as int,
                        klen as int,
                        klen as nat,
                    );
                }
            }
            kc = kc + klen;
        }
        acc
    }

    /// Adds the accumulators of a block to the two matrices.
    fn store(
        &self,
        x: &EinsumInput<T>,
        acc: &Vec<T>,
        n0: usize,
        Ghost(lo): Ghost<int>,
        Ghost(hi): Ghost<int>,
        g_raw: &mut Vec<T>,
        g_ones: &mut Vec<T>,
        g_s: usize,
    )
        requires
            self.valid(),
            x.valid(),
            n0 < x.shape.b,
            self.accumulated(x, acc@, n0 as int, lo, hi),
            matrix_fits(old(g_raw)@.len(), x.shape, g_s as int),
            matrix_fits(old(g_ones)@.len(), x.shape, g_s as int),
        ensures
            final(g_raw)@.len() == old(g_raw)@.len(),
            final(g_ones)@.len() == old(g_ones)@.len(),
            forall|j: int|
                0 <= j < old(g_raw)@.len() ==> #[trigger] final(g_raw)@[j] == (if in_tile(
                    x.shape,
                    g_s as int,
                    n0 as int,
                    j,
                ) {
                    value::<(T, T), T, P>(
                        self.add,
                        (
                            old(g_raw)@[j],
                            self.partial(x, j / (g_s as int), j % (g_s as int), lo, hi),
                        ),
                    )
                } else {
                    old(g_raw)@[j]
                }),
            forall|j: int|
                0 <= j < old(g_ones)@.len() ==> #[trigger] final(g_ones)@[j] == (if in_tile(
                    x.shape,
                    g_s as int,
                    n0 as int,
                    j,
                ) {
                    value::<(T, T), T, Q>(
                        self.add_double,
                        (
                            old(g_ones)@[j],
                            self.partial(
                                x,
                                x.shape.a + j / (g_s as int),
                                j % (g_s as int),
                                lo,
                                hi,
                            ),
                        ),
                    )
                } else {
                    old(g_ones)@[j]
                }),
    {
        let ghost raw0 = g_raw@;
        let ghost ones0 = g_ones@;
        let s = x.shape;
        let ghost g = g_s as int;
        let raw_len: usize = g_raw.len();
        let ones_len: usize = g_ones.len();
        proof {
            assert forall|j: int| 0 <= j && in_tile(s, g, n0 as int, j) implies 0
                <= #[trigger] accumulator_of(j / g, j % g - n0) < ACCUMULATORS by {
                lemma_div_pos_is_pos(j, g);
                one_accumulator_per_cell(0, j / g, j % g - n0);
            }
            assert forall|j: int| 0 <= j && in_tile(s, g, n0 as int, j) implies 0
                <= #[trigger] accumulator_of(s.a + j / g, j % g - n0) < ACCUMULATORS by {
                lemma_div_pos_is_pos(j, g);
                one_accumulator_per_cell(0, s.a + j / g, j % g - n0);
            }
        }
        let mut e: usize = 0;
        while e < ACCUMULATORS
            invariant
                self.valid(),
                x.valid(),
                s == x.shape,
                g == g_s,
                n0 < s.b,
                self.accumulated(x, acc@, n0 as int, lo, hi),
                matrix_fits(raw_len as nat, s, g),
                matrix_fits(ones_len as nat, s, g),
                e <= ACCUMULATORS,
                g_raw@.len() == raw0.len() == raw_len,
                g_ones@.len() == ones0.len() == ones_len,
                forall|j: int|
                    0 <= j < raw0.len() ==> #[trigger] g_raw@[j] == (if in_tile(s, g, n0 as int, j)
                        && accumulator_of(j / g, j % g - n0) < e {
                        value::<(T, T), T, P>(
                            self.add,
                            (raw0[j], self.partial(x, j / g, j % g, lo, hi)),
                        )
                    } else {
                        raw0[j]
                    }),
                forall|j: int|
                    0 <= j < ones0.len() ==> #[trigger] g_ones@[j] == (if in_tile(
                        s,
                        g,
                        n0 as int,
                        j,
                    ) && accumulator_of(s.a + j / g, j % g - n0) < e {
                        value::<(T, T), T, Q>(
                            self.add_double,
                            (ones0[j], self.partial(x, s.a + j / g, j % g, lo, hi)),
                        )
                    } else {
                        ones0[j]
                    }),
            decreases ACCUMULATORS - e,
        {
            let tid: usize = e / 56;
            let m2: usize = 8 * (tid % 32) + e % 56 / 7;
            let nl: usize = 7 * (tid / 32) + e % 56 % 7;
            let n: usize = n0 + nl;
            proof {
                one_accumulator_per_cell(e as int, 0, 0);
            }
            let ghost raw1 = g_raw@;
            let ghost ones1 = g_ones@;
            let ghost mut at_raw: int = -1;
            let ghost mut at_ones: int = -1;
            if m2 < 2 * s.a && n < s.b {
                if m2 < s.a {
                    proof {
                        matrix_cell(raw_len as int, s, g, m2 as int, n as int);
                    }
                    let at: usize = m2 * g_s + n;
                    g_raw.set(at, apply(&self.add, (g_raw[at], acc[e])));
                    proof {
                        at_raw = at as int;
                    }
                } else {
                    let m: usize = m2 - s.a;
                    proof {
                        matrix_cell(ones_len as int, s, g, m as int, n as int);
                    }
                    let at: usize = m * g_s + n;
                    g_ones.set(at, apply(&self.add_double, (g_ones[at], acc[e])));
                    proof {
                        at_ones = at as int;
                    }
                }
            }
            proof {
                assert forall|j: int|
                    0 <= j < raw0.len() && in_tile(s, g, n0 as int, j) && accumulator_of(
                        j / g,
                        j % g - n0,
                    ) == e implies j == at_raw && j / g == m2 && j % g == n by {
                    lemma_div_pos_is_pos(j, g);
                    one_accumulator_per_cell(0, j / g, j % g - n0);
                    lemma_fundamental_div_mod(j, g);
                    assert(g * (j / g) == j / g * g) by (nonlinear_arith);
                }
                assert forall|j: int|
                    0 <= j < ones0.len() && in_tile(s, g, n0 as int, j) && accumulator_of(
                        s.a + j / g,
                        j % g - n0,
                    ) == e implies j == at_ones && s.a + j / g == m2 && j % g == n by {
                    lemma_div_pos_is_pos(j, g);
                    one_accumulator_per_cell(0, s.a + j / g, j % g - n0);
                    lemma_fundamental_div_mod(j, g);
                    assert(g * (j / g) == j / g * g) by (nonlinear_arith);
                }
                if at_raw >= 0 {
                    matrix_cell(raw_len as int, s, g, m2 as int, n as int);
                    assert(in_tile(s, g, n0 as int, at_raw));
                    assert(accumulator_of(at_raw / g, at_raw % g - n0) == e);
                    assert(g_raw@[at_raw] == value::<(T, T), T, P>(
                        self.add,
                        (raw0[at_raw], self.partial(x, at_raw / g, at_raw % g, lo, hi)),
                    ));
                }
                if at_ones >= 0 {
                    matrix_cell(ones_len as int, s, g, m2 - s.a, n as int);
                    assert(in_tile(s, g, n0 as int, at_ones));
                    assert(accumulator_of(s.a + at_ones / g, at_ones % g - n0) == e);
                    assert(g_ones@[at_ones] == value::<(T, T), T, Q>(
                        self.add_double,
                        (ones0[at_ones], self.partial(x, s.a + at_ones / g, at_ones % g, lo, hi)),
                    ));
                }
                assert forall|j: int| 0 <= j < raw0.len() implies #[trigger] g_raw@[j] == (
                if in_tile(s, g, n0 as int, j) && accumulator_of(j / g, j % g - n0) < e + 1 {
                    value::<(T, T), T, P>(
                        self.add,
                        (raw0[j], self.partial(x, j / g, j % g, lo, hi)),
                    )
                } else {
                    raw0[j]
                }) by {
                    if j != at_raw {
                        assert(g_raw@[j] == raw1[j]);
                    }
                }
                assert forall|j: int| 0 <= j < ones0.len() implies #[trigger] g_ones@[j] == (
                if in_tile(s, g, n0 as int, j) && accumulator_of(s.a + j / g, j % g - n0) < e + 1 {
                    value::<(T, T), T, Q>(
                        self.add_double,
                        (ones0[j], self.partial(x, s.a + j / g, j % g, lo, hi)),
                    )
                } else {
                    ones0[j]
                }) by {
                    if j != at_ones {
                        assert(g_ones@[j] == ones1[j]);
                    }
                }
            }
            e = e + 1;
        }
    }

    /// The paired einsum: adds to `g_raw` the products of the weighted rows of `A` with the rows
    /// of `B`, and to `g_ones` twice those of the plain rows. Row `m` of either matrix starts at
    /// `m * g_s`; what stands behind its `b` elements is left alone.
    pub fn einsum_pair_fused(
        &self,
        x: &EinsumInput<T>,
        g_raw: &mut Vec<T>,
        g_ones: &mut Vec<T>,
        g_s: usize,
        k_slices: usize,
    )
        requires
            self.valid(),
            x.valid(),
            0 < k_slices,
            x.shape.rows() + k_slices <= usize::MAX,
            matrix_fits(old(g_raw)@.len(), x.shape, g_s as int),
            matrix_fits(old(g_ones)@.len(), x.shape, g_s as int),
        ensures
            final(g_raw)@.len() == old(g_raw)@.len(),
            final(g_ones)@.len() == old(g_ones)@.len(),
            forall|j: int|
                0 <= j < old(g_raw)@.len() ==> #[trigger] final(g_raw)@[j] == (if in_matrix(
                    x.shape,
                    g_s as int,
                    j,
                ) {
                    self.raw_after(
                        x,
                        old(g_raw)@[j],
                        j / (g_s as int),
                        j % (g_s as int),
                        k_slices as int,
                        k_slices as nat,
                    )
                } else {
                    old(g_raw)@[j]
                }),
            forall|j: int|
                0 <= j < old(g_ones)@.len() ==> #[trigger] final(g_ones)@[j] == (if in_matrix(
                    x.shape,
                    g_s as int,
                    j,
                ) {
                    self.ones_after(
                        x,
                        old(g_ones)@[j],
                        j / (g_s as int),
                        j % (g_s as int),
                        k_slices as int,
                        k_slices as nat,
                    )
                } else {
                    old(g_ones)@[j]
                }),
    {
        let s = x.shape;
        let ghost raw0 = g_raw@;
        let ghost ones0 = g_ones@;
        let ghost g = g_s as int;
        let ghost ks = k_slices as int;
        let k_total: usize = s.half * s.r;
        let n_tiles: usize = (s.b + BN - 1) / BN;
        let mut by: usize = 0;
        while by < k_slices
            invariant
                self.valid(),
                x.valid(),
                s == x.shape,
                g == g_s,
                ks == k_slices,
                0 < k_slices,
                k_total == s.rows(),
                k_total + k_slices <= usize::MAX,
                n_tiles == parts(s.b as int, 112),
                by <= k_slices,
                g_raw@.len() == raw0.len(),
                g_ones@.len() == ones0.len(),
                matrix_fits(raw0.len(), s, g),
                matrix_fits(ones0.len(), s, g),
                forall|j: int|
                    0 <= j < raw0.len() ==> #[trigger] g_raw@[j] == (if in_matrix(s, g, j) {
                        self.raw_after(x, raw0[j], j / g, j % g, ks, by as nat)
                    } else {
                        raw0[j]
                    }),
                forall|j: int|
                    0 <= j < ones0.len() ==> #[trigger] g_ones@[j] == (if in_matrix(s, g, j) {
                        self.ones_after(x, ones0[j], j / g, j % g, ks, by as nat)
                    } else {
                        ones0[j]
                    }),
            decreases k_slices - by,
        {
            let (k_start, k_end): (usize, usize) = slice_bounds(k_total, k_slices, by);
            let mut bx: usize = 0;
            while bx < n_tiles
                invariant
                    self.valid(),
                    x.valid(),
                    s == x.shape,
                    g == g_s,
                    ks == k_slices,
                    by < k_slices,
                    k_total == s.rows(),
                    k_start == slice_start(k_total as int, ks, by as int),
                    k_end == slice_end(k_total as int, ks, by as int),
                    k_end <= k_total,
                    n_tiles == parts(s.b as int, 112),
                    bx <= n_tiles,
                    g_raw@.len() == raw0.len(),
                    g_ones@.len() == ones0.len(),
                    matrix_fits(raw0.len(), s, g),
                    matrix_fits(ones0.len(), s, g),
                    forall|j: int|
                        0 <= j < raw0.len() ==> #[trigger] g_raw@[j] == (if in_matrix(s, g, j) {
                            self.raw_after(
                                x,
                                raw0[j],
                                j / g,
                                j % g,
                                ks,
                                (if j % g < bx * 112 {
                                    by + 1
                                } else {
                                    by as int
                                }) as nat,
                            )
                        } else {
                            raw0[j]
                        }),
                    forall|j: int|
                        0 <= j < ones0.len() ==> #[trigger] g_ones@[j] == (if in_matrix(s, g, j) {
                            self.ones_after(
                                x,
                                ones0[j],
                                j / g,
                                j % g,
                                ks,
                                (if j % g < bx * 112 {
                                    by + 1
                                } else {
                                    by as int
                                }) as nat,
                            )
                        } else {
                            ones0[j]
                        }),
                decreases n_tiles - bx,
            {
                let n0: usize = bx * 112;
                let acc: Vec<T> = self.block(x, n0, k_start, k_end);
                self.store(
                    x,
                    &acc,
                    n0,
                    Ghost(k_start as int),
                    Ghost(k_end as int),
                    g_raw,
                    g_ones,
                    g_s,
                );
                bx = bx + 1;
            }
            proof {
                assert forall|j: int| 0 <= j && in_matrix(s, g, j) implies #[trigger] (j % g) < bx
                    * 112 by {}
            }
            by = by + 1;
        }
    }

    /// The first two rows of both tiles, as a block would load them: element `k * 257 + m2` of the
    /// first is stacked column `m2` of row `k`, element `k * 112 + n` of the second column `n` of
    /// row `k`.
    pub fn einsum_pair_dump_tiles(&self, x: &EinsumInput<T>) -> (tiles: (Vec<T>, Vec<T>))
        requires
            self.valid(),
            x.valid(),
            0 < x.shape.b,
            2 <= x.shape.rows(),
        ensures
            tiles.0@.len() == 2 * APAD,
            tiles.1@.len() == 2 * BN,
            forall|q: int|
                0 <= q < 2 * APAD && q % 257 < 2 * x.shape.a ==> #[trigger] tiles.0@[q]
                    == self.stacked(x, q / 257, q % 257),
            forall|q: int|
                0 <= q < 2 * BN && q % 112 < x.shape.b ==> #[trigger] tiles.1@[q] == x.b_at(
                    q / 112,
                    q % 112,
                ),
    {
        let mut ta: Vec<T> = filled(self.zero, 8224);
        let mut tb: Vec<T> = filled(self.zero, 3584);
        self.fill_a(x, 0, 2, &mut ta);
        self.fill_b(x, 0, 0, 2, &mut tb);
        ta.truncate(514);
        tb.truncate(224);
        (ta, tb)
    }

    /// The accumulators of a first step over 32 rows, for threads that each hold sixteen by seven
    /// of them: element `(tx * 16 + ty) * 112 + dm * 7 + dn`, for `tx` below two and `ty` below
    /// sixteen, is the one of stacked column `tx + 16 * dm` and column `7 * ty + dn`.
    pub fn einsum_pair_dump_acc(&self, x: &EinsumInput<T>) -> (dump: Vec<T>)
        requires
            self.valid(),
            x.valid(),
            0 < x.shape.b,
            BK <= x.shape.rows(),
        ensures
            dump@.len() == 3584,
            forall|o: int|
                0 <= o < 3584 && dump_column(o) < 2 * x.shape.a && dump_tile_column(o) < x.shape.b
                    ==> #[trigger] dump@[o] == self.partial(
                    x,
                    dump_column(o),
                    dump_tile_column(o),
                    0,
                    32,
                ),
    {
        let mut ta: Vec<T> = filled(self.zero, 8224);
        let mut tb: Vec<T> = filled(self.zero, 3584);
        self.fill_a(x, 0, 32, &mut ta);
        self.fill_b(x, 0, 0, 32, &mut tb);
        let mut dump: Vec<T> = Vec::with_capacity(3584);
        let mut o: usize = 0;
        while o < 3584
            invariant
                self.valid(),
                x.valid(),
                self.a_tile_holds(x, ta@, 0, 32),
                self.b_tile_holds(x, tb@, 0, 0, 32),
                o <= 3584,
                dump@.len() == o,
                forall|q: int|
                    0 <= q < o && dump_column(q) < 2 * x.shape.a && dump_tile_column(q) < x.shape.b
                        ==> #[trigger] dump@[q] == self.partial(
                        x,
                        dump_column(q),
                        dump_tile_column(q),
                        0,
                        32,
                    ),
            decreases 3584 - o,
        {
            let m2: usize = o / 112 / 16 + 16 * (o % 112 / 7);
            let n: usize = 7 * (o / 112 % 16) + o % 112 % 7;
            let mut sum: T = self.zero;
            let mut k: usize = 0;
            while k < 32
                invariant
                    self.valid(),
                    k <= 32,
                    m2 < 256,
                    n < 112,
                    ta@.len() == 32 * 257,
                    tb@.len() == 32 * 112,
                    sum == self.dot(self.zero, ta@, tb@, m2 as int, n as int, k as nat),
                decreases 32 - k,
            {
                sum = apply(&self.fma, (sum, ta[k * 257 + m2], tb[k * 112 + n]));
                k = k + 1;
            }
            proof {
                if m2 < 2 * x.shape.a && n < x.shape.b {
                    self.dot_extends_partial(x, ta@, tb@, m2 as int, 0, n as int, 0, 0, 32, 32);
                }
            }
            dump.push(sum);
            o = o + 1;
        }
        dump
    }
}

impl<
    T: Copy,
    W: Fn((T, T, T)) -> T,
    M: Fn((T, T, T)) -> T,
    P: Fn((T, T)) -> T,
    Q: Fn((T, T)) -> T,
> EinsumOps<T, W, M, P, Q> {
    /// Whether the operations compute exactly with what elements are worth.
    pub open spec fn exact(&self, worth: spec_fn(T) -> int) -> bool {
        let v = worth;
        &&& v(self.zero) == 0
        &&& forall|a: T, s: T, t: T|
            v(#[trigger] value::<(T, T, T), T, W>(self.weight, (a, s, t))) == v(a) * (v(s) + v(t))
        &&& forall|acc: T, x: T, y: T|
            v(#[trigger] value::<(T, T, T), T, M>(self.fma, (acc, x, y))) == v(acc) + v(x) * v(y)
        &&& forall|g: T, p: T|
            v(#[trigger] value::<(T, T), T, P>(self.add, (g, p))) == v(g) + v(p)
        &&& forall|g: T, p: T|
            v(#[trigger] value::<(T, T), T, Q>(self.add_double, (g, p))) == v(g) + 2 * v(p)
    }

    /// The sum over the first `k` rows of the samples of the first half: score times row of `A`
    /// times row of `B`.
    pub open spec fn first_half(
        &self,
        worth: spec_fn(T) -> int,
        x: &EinsumInput<T>,
        m: int,
        n: int,
        k: nat,
    ) -> int
        decreases k,
    {
        if k == 0 {
            0
        } else {
            let v = worth;
            let i = (k - 1) / x.shape.r as int;
            self.first_half(worth, x, m, n, (k - 1) as nat) + v(x.scores@[i]) * (v(
                x.a_at(k - 1, m),
            ) * v(x.b_at(k - 1, n)))
        }
    }

    /// The same of the second half, whose rows are those of the first with opposite signs.
    pub open spec fn second_half(
        &self,
        worth: spec_fn(T) -> int,
        x: &EinsumInput<T>,
        m: int,
        n: int,
        k: nat,
    ) -> int
        decreases k,
    {
        if k == 0 {
            0
        } else {
            let v = worth;
            let i = (k - 1) / x.shape.r as int;
            self.second_half(worth, x, m, n, (k - 1) as nat) + v(x.scores@[i + x.shape.half]) * ((
            -v(x.a_at(k - 1, m))) * (-v(x.b_at(k - 1, n))))
        }
    }

    /// The sum over the first `k` rows of the plain products.
    pub open spec fn plain_sum(
        &self,
        worth: spec_fn(T) -> int,
        x: &EinsumInput<T>,
        m: int,
        n: int,
        k: nat,
    ) -> int
        decreases k,
    {
        if k == 0 {
            0
        } else {
            let v = worth;
            self.plain_sum(worth, x, m, n, (k - 1) as nat) + v(x.a_at(k - 1, m)) * v(
                x.b_at(k - 1, n),
            )
        }
    }

    /// Pairs cancel their signs: over exact numbers, the weighted sum over the pairs is the sum
    /// over the samples of both halves, each times its own score, the second half being the first
    /// with opposite signs; and the plain sum is that of the plain products.
    pub proof fn pairs_cancel_their_signs(
        &self,
        worth: spec_fn(T) -> int,
        x: &EinsumInput<T>,
        m: int,
        n: int,
        k: nat,
    )
        requires
            self.exact(worth),
            0 <= m < x.shape.a,
        ensures
            worth(self.partial(x, m, n, 0, k as int)) == self.first_half(worth, x, m, n, k)
                + self.second_half(worth, x, m, n, k),
            worth(self.partial(x, x.shape.a + m, n, 0, k as int)) == self.plain_sum(
                worth,
                x,
                m,
                n,
                k,
            ),
        decreases k,
    {
        if k > 0 {
            self.pairs_cancel_their_signs(worth, x, m, n, (k - 1) as nat);
            let v = worth;
            let i = (k - 1) / x.shape.r as int;
            let (a, b) = (v(x.a_at(k - 1, m)), v(x.b_at(k - 1, n)));
            let (s, t) = (v(x.scores@[i]), v(x.scores@[i + x.shape.half]));
            assert((a * (s + t)) * b == s * (a * b) + t * ((-a) * (-b))) by (nonlinear_arith);
        }
    }

    /// The number of slices does not matter: over exact numbers, after all slices an element of
    /// the weighted matrix has grown by the sum over all rows, and one of the plain matrix by
    /// twice that sum.
    pub proof fn slices_add_up(
        &self,
        worth: spec_fn(T) -> int,
        x: &EinsumInput<T>,
        g: T,
        m: int,
        n: int,
        slices: int,
    )
        requires
            self.exact(worth),
            0 < slices,
            0 < x.shape.rows(),
        ensures
            worth(self.raw_after(x, g, m, n, slices, slices as nat)) == worth(g) + worth(
                self.partial(x, m, n, 0, x.shape.rows()),
            ),
            worth(self.ones_after(x, g, m, n, slices, slices as nat)) == worth(g) + 2 * worth(
                self.partial(x, x.shape.a + m, n, 0, x.shape.rows()),
            ),
    {
        self.slices_add_up_to(worth, x, g, m, n, slices, slices as nat);
        slices_partition(x.shape.rows(), slices, slices - 1);
        assert(slice_start(x.shape.rows(), slices, slices) >= x.shape.rows()) by {
            let p = parts(x.shape.rows(), slices);
            assert(slices * p == (slices - 1) * p + p) by (nonlinear_arith);
        }
    }

    proof fn slices_add_up_to(
        &self,
        worth: spec_fn(T) -> int,
        x: &EinsumInput<T>,
        g: T,
        m: int,
        n: int,
        slices: int,
        q: nat,
    )
        requires
            self.exact(worth),
            0 < slices,
            q <= slices,
            0 < x.shape.rows(),
        ensures
            ({
                let start = slice_start(x.shape.rows(), slices, q as int);
                let reached = if start < x.shape.rows() {
                    start
                } else {
                    x.shape.rows()
                };
                let v = worth;
                &&& v(self.raw_after(x, g, m, n, slices, q)) == v(g) + v(
                    self.partial(x, m, n, 0, reached),
                )
                &&& v(self.ones_after(x, g, m, n, slices, q)) == v(g) + 2 * v(
                    self.partial(x, x.shape.a + m, n, 0, reached),
                )
            }),
        decreases q,
    {
        let rows = x.shape.rows();
        if q == 0 {
            slices_partition(rows, slices, 0);
        } else {
            self.slices_add_up_to(worth, x, g, m, n, slices, (q - 1) as nat);
            slices_partition(rows, slices, q - 1);
            let start = slice_start(rows, slices, q - 1);
            let end = slice_end(rows, slices, q - 1);
            if start < rows {
                self.worth_splits(worth, x, m, n, 0, start, end);
                self.worth_splits(worth, x, x.shape.a + m, n, 0, start, end);
            } else {
                assert(slice_start(rows, slices, q as int) >= rows) by {
                    let p = parts(rows, slices);
                    assert(q * p == (q - 1) * p + p) by (nonlinear_arith);
                }
            }
        }
    }

    proof fn worth_splits(
        &self,
        worth: spec_fn(T) -> int,
        x: &EinsumInput<T>,
        m2: int,
        n: int,
        lo: int,
        mid: int,
        hi: int,
    )
        requires
            self.exact(worth),
            lo <= mid <= hi,
        ensures
            worth(self.partial(x, m2, n, lo, hi)) == worth(
                self.partial(x, m2, n, lo, mid),
            ) + worth(self.partial(x, m2, n, mid, hi)),
        decreases hi - mid,
    {
        if mid < hi {
            self.worth_splits(worth, x, m2, n, lo, mid, hi - 1);
        }
    }
}

/// The stacked column of element `o` of an accumulator dump.
pub open spec fn dump_column(o: int) -> int {
    o / 112 / 16 + 16 * (o % 112 / 7)
}

/// The column of element `o` of an accumulator dump.
pub open spec fn dump_tile_column(o: int) -> int {
    7 * (o / 112 % 16) + o % 112 % 7
}

/// Whether a matrix of the shape's `a` rows and `b` columns, rows `g_s` apart, fits into `len`
/// elements.
pub open spec fn matrix_fits(len: nat, shape: EinsumShape, g_s: int) -> bool {
    &&& 0 < g_s
    &&& shape.b <= g_s
    &&& len + g_s >= shape.a * g_s + shape.b
}

/// Whether index `j` is that of an element of the matrix, not of padding.
pub open spec fn in_matrix(shape: EinsumShape, g_s: int, j: int) -> bool {
    j / g_s < shape.a && j % g_s < shape.b
}

/// Whether index `j` is that of an element in the tile of columns from `n0`.
pub open spec fn in_tile(shape: EinsumShape, g_s: int, n0: int, j: int) -> bool {
    in_matrix(shape, g_s, j) && n0 <= j % g_s < n0 + BN
}

/// The index of an element of a matrix.
proof fn matrix_cell(len: int, shape: EinsumShape, g_s: int, m: int, n: int)
    requires
        0 <= len,
        matrix_fits(len as nat, shape, g_s),
        0 <= m < shape.a,
        0 <= n < shape.b,
    ensures
        0 <= m * g_s,
        m * g_s + n < len,
        (m * g_s + n) / g_s == m,
        (m * g_s + n) % g_s == n,
{
    tile_cell(m, n, g_s);
    assert(m * g_s + g_s <= shape.a * g_s) by (nonlinear_arith)
        requires
            m + 1 <= shape.a,
            0 < g_s,
    ;
}

// ---------------------------------------------------------------------------
// The reference
// ---------------------------------------------------------------------------
/// The reference sum of the weighted products of column `m` and column `n` over the first `k`
/// rows.
pub open spec fn reference_raw<T, U, R: Fn((U, T, T, T, T)) -> U>(
    acc: R,
    zero: U,
    x: &EinsumInput<T>,
    m: int,
    n: int,
    k: nat,
) -> U
    decreases k,
{
    if k == 0 {
        zero
    } else {
        let i = (k - 1) / x.shape.r as int;
        value::<(U, T, T, T, T), U, R>(
            acc,
            (
                reference_raw::<T, U, R>(acc, zero, x, m, n, (k - 1) as nat),
                x.a_at(k - 1, m),
                x.scores@[i],
                x.scores@[i + x.shape.half],
                x.b_at(k - 1, n),
            ),
        )
    }
}

/// The reference sum of the plain products of column `m` and column `n` over the first `k` rows.
pub open spec fn reference_ones<T, U, O: Fn((U, T, T)) -> U>(
    acc: O,
    zero: U,
    x: &EinsumInput<T>,
    m: int,
    n: int,
    k: nat,
) -> U
    decreases k,
{
    if k == 0 {
        zero
    } else {
        value::<(U, T, T), U, O>(
            acc,
            (
                reference_ones::<T, U, O>(acc, zero, x, m, n, (k - 1) as nat),
                x.a_at(k - 1, m),
                x.b_at(k - 1, n),
            ),
        )
    }
}

/// The reference result: for each element, one wide sum over all rows, row by row. `acc_raw` adds
/// to a sum an element of `A` times the sum of two scores times an element of `B`; `acc_ones`
/// adds the plain product; `to_raw` and `to_ones` make outputs of the sums.
pub fn cpu_ref<
    T: Copy,
    U: Copy,
    R: Fn((U, T, T, T, T)) -> U,
    O: Fn((U, T, T)) -> U,
    X: Fn(U) -> T,
    Y: Fn(U) -> T,
>(x: &EinsumInput<T>, zero: U, acc_raw: &R, acc_ones: &O, to_raw: &X, to_ones: &Y) -> (out: (
    Vec<T>,
    Vec<T>,
))
    requires
        x.valid(),
        x.shape.a * x.shape.b <= usize::MAX,
        computes::<(U, T, T, T, T), U, R>(*acc_raw),
        computes::<(U, T, T), U, O>(*acc_ones),
        computes::<U, T, X>(*to_raw),
        computes::<U, T, Y>(*to_ones),
    ensures
        out.0@.len() == x.shape.a * x.shape.b,
        out.1@.len() == x.shape.a * x.shape.b,
        forall|c: int|
            0 <= c < out.0@.len() ==> #[trigger] out.0@[c] == value::<U, T, X>(
                *to_raw,
                reference_raw::<T, U, R>(
                    *acc_raw,
                    zero,
                    x,
                    c / x.shape.b as int,
                    c % x.shape.b as int,
                    x.shape.rows() as nat,
                ),
            ),
        forall|c: int|
            0 <= c < out.1@.len() ==> #[trigger] out.1@[c] == value::<U, T, Y>(
                *to_ones,
                reference_ones::<T, U, O>(
                    *acc_ones,
                    zero,
                    x,
                    c / x.shape.b as int,
                    c % x.shape.b as int,
                    x.shape.rows() as nat,
                ),
            ),
{
    let s = x.shape;
    let k_total: usize = s.half * s.r;
    let cells: usize = s.a * s.b;
    let mut raw: Vec<T> = Vec::with_capacity(cells);
    let mut ones: Vec<T> = Vec::with_capacity(cells);
    let mut c: usize = 0;
    while c < cells
        invariant
            x.valid(),
            s == x.shape,
            k_total == s.rows(),
            cells == s.a * s.b,
            c <= cells,
            raw@.len() == c,
            ones@.len() == c,
            computes::<(U, T, T, T, T), U, R>(*acc_raw),
            computes::<(U, T, T), U, O>(*acc_ones),
            computes::<U, T, X>(*to_raw),
            computes::<U, T, Y>(*to_ones),
            forall|d: int|
                0 <= d < c ==> #[trigger] raw@[d] == value::<U, T, X>(
                    *to_raw,
                    reference_raw::<T, U, R>(
                        *acc_raw,
                        zero,
                        x,
                        d / s.b as int,
                        d % s.b as int,
                        k_total as nat,
                    ),
                ),
            forall|d: int|
                0 <= d < c ==> #[trigger] ones@[d] == value::<U, T, Y>(
                    *to_ones,
                    reference_ones::<T, U, O>(
                        *acc_ones,
                        zero,
                        x,
                        d / s.b as int,
                        d % s.b as int,
                        k_total as nat,
                    ),
                ),
        decreases cells - c,
    {
        proof {
            assert(s.b > 0) by (nonlinear_arith)
                requires
                    c < s.a * s.b,
                    c >= 0,
                    s.b >= 0,
            ;
            assert(s.r > 0) by (nonlinear_arith)
                requires
                    s.half * s.r > 0,
                    s.r >= 0,
            ;
            assert(c as int / s.b as int <= s.a - 1) by (nonlinear_arith)
                requires
                    c < s.a * s.b,
                    s.b > 0,
            ;
        }
        let m: usize = c / s.b;
        let n: usize = c % s.b;
        let mut sum_raw: U = zero;
        let mut sum_ones: U = zero;
        let mut kk: usize = 0;
        while kk < k_total
            invariant
                x.valid(),
                s == x.shape,
                s.r > 0,
                k_total == s.rows(),
                kk <= k_total,
                m < s.a,
                n < s.b,
                computes::<(U, T, T, T, T), U, R>(*acc_raw),
                computes::<(U, T, T), U, O>(*acc_ones),
                sum_raw == reference_raw::<T, U, R>(
                    *acc_raw,
                    zero,
                    x,
                    m as int,
                    n as int,
                    kk as nat,
                ),
                sum_ones == reference_ones::<T, U, O>(
                    *acc_ones,
                    zero,
                    x,
                    m as int,
                    n as int,
                    kk as nat,
                ),
            decreases k_total - kk,
        {
            let i: usize = kk / s.r;
            proof {
                lemma_fundamental_div_mod(kk as int, s.r as int);
                assert(i < s.half) by (nonlinear_arith)
                    requires
                        kk < s.half * s.r,
                        i == kk as int / s.r as int,
                        s.r > 0,
                ;
            }
            let ao: usize = row_offset(kk, s.half, s.r, s.a_s0, s.a_s1, s.a, x.a_flat.len());
            let bo: usize = row_offset(kk, s.half, s.r, s.b_s0, s.b_s1, s.b, x.b_flat.len());
            let av: T = x.a_flat[ao + m];
            let bv: T = x.b_flat[bo + n];
            sum_raw = apply(acc_raw, (sum_raw, av, x.scores[i], x.scores[i + s.half], bv));
            sum_ones = apply(acc_ones, (sum_ones, av, bv));
            kk = kk + 1;
        }
        raw.push(apply(to_raw, sum_raw));
        ones.push(apply(to_ones, sum_ones));
        c = c + 1;
    }
    (raw, ones)
}

/// One step of the 64-bit linear congruential generator that fills test operands.
pub open spec fn operand_lcg(seed: u64) -> u64 {
    ((seed as int * 6364136223846793005 + 1442695040888963407) % 0x1_0000_0000_0000_0000) as u64
}

/// The generator after `n` steps.
pub open spec fn operand_seed(seed: u64, n: nat) -> u64
    decreases n,
{
    if n == 0 {
        seed
    } else {
        operand_lcg(operand_seed(seed, (n - 1) as nat))
    }
}

/// Fills `data` from the generator: element `i` is what `scaled` makes of the upper 31 bits of
/// the state after `i + 1` steps.
pub fn fill_rng<T: Copy, F: Fn(u32) -> T>(data: &mut Vec<T>, seed: &mut u64, scaled: &F)
    requires
        computes::<u32, T, F>(*scaled),
    ensures
        final(data)@.len() == old(data)@.len(),
        *final(seed) == operand_seed(*old(seed), old(data)@.len()),
        forall|i: int|
            0 <= i < old(data)@.len() ==> #[trigger] final(data)@[i] == value::<u32, T, F>(
                *scaled,
                (operand_seed(*old(seed), (i + 1) as nat) / 0x2_0000_0000) as u32,
            ),
{
    let n: usize = data.len();
    let ghost seed0 = *seed;
    let mut i: usize = 0;
    while i < n
        invariant
            n == data@.len(),
            i <= n,
            *seed == operand_seed(seed0, i as nat),
            computes::<u32, T, F>(*scaled),
            forall|j: int|
                0 <= j < i ==> #[trigger] data@[j] == value::<u32, T, F>(
                    *scaled,
                    (operand_seed(seed0, (j + 1) as nat) / 0x2_0000_0000) as u32,
                ),
        decreases n - i,
    {
        let wide: u128 = (*seed as u128) * 6364136223846793005 + 1442695040888963407;
        *seed = (wide % 0x1_0000_0000_0000_0000) as u64;
        let high: u32 = (*seed / 0x2_0000_0000) as u32;
        data.set(i, apply(scaled, high));
        i = i + 1;
    }
}

/// How many elements of two lists of equal length `far` tells apart.
pub open spec fn mismatches<T, F: Fn((T, T)) -> bool>(far: F, got: Seq<T>, exp: Seq<T>) -> nat
    decreases got.len(),
{
    if got.len() == 0 {
        0
    } else {
        mismatches::<T, F>(far, got.drop_last(), exp.drop_last()) + (if value::<(T, T), bool, F>(
            far,
            (got.last(), exp.last()),
        ) {
            1nat
        } else {
            0nat
        })
    }
}

/// Counts the elements of `got` that `far` tells apart from those of `exp`.
pub fn count_mismatches<T: Copy, F: Fn((T, T)) -> bool>(got: &[T], exp: &[T], far: &F) -> (n: usize)
    requires
        got@.len() == exp@.len(),
        computes::<(T, T), bool, F>(*far),
    ensures
        n == mismatches::<T, F>(*far, got@, exp@),
{
    let mut n: usize = 0;
    let mut i: usize = 0;
    while i < got.len()
        invariant
            got@.len() == exp@.len(),
            i <= got@.len(),
            n <= i,
            n == mismatches::<T, F>(*far, got@.take(i as int), exp@.take(i as int)),
            computes::<(T, T), bool, F>(*far),
        decreases got@.len() - i,
    {
        proof {
            assert(got@.take(i + 1).drop_last() =~= got@.take(i as int));
            assert(exp@.take(i + 1).drop_last() =~= exp@.take(i as int));
        }
        if apply(far, (got[i], exp[i])) {
            n = n + 1;
        }
        i = i + 1;
    }
    proof {
        assert(got@.take(i as int) =~= got@);
        assert(exp@.take(i as int) =~= exp@);
    }
    n
}

} // verus!
