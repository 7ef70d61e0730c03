//! Fitness normalisation.
//!
//! Raw scores become z-scores: centred by the mean of all scores or of their
//! group, and divided by the deviation of all scores; or, with baseline
//! subtraction, centred by the first score of their row.

use vstd::arithmetic::div_mod::*;
use vstd::prelude::*;

use crate::noiser::NoiserKind;
use crate::ops::{apply, computes, value};
use crate::split::copy_slice;

verus! {

/// The arithmetic of a normalisation.
pub struct FitnessOps<T, A, Q, V, D, Z> {
    /// The empty sum.
    pub zero: T,
    /// The sum of two numbers.
    pub add: A,
    /// The square of a number.
    pub square: Q,
    /// A sum divided by a count.
    pub over: V,
    /// The deviation, of the mean of the squares and the mean.
    pub deviation: D,
    /// The z-score, of a score, its centre, a deviation and whether it counts.
    pub z: Z,
}

impl<
    T: Copy,
    A: Fn((T, T)) -> T,
    Q: Fn(T) -> T,
    V: Fn((T, usize)) -> T,
    D: Fn((T, T)) -> T,
    Z: Fn((T, T, T, bool)) -> T,
> FitnessOps<T, A, Q, V, D, Z> {
    /// Each operation gives one result for each argument.
    pub open spec fn valid(&self) -> bool {
        &&& computes::<(T, T), T, A>(self.add)
        &&& computes::<T, T, Q>(self.square)
        &&& computes::<(T, usize), T, V>(self.over)
        &&& computes::<(T, T), T, D>(self.deviation)
        &&& computes::<(T, T, T, bool), T, Z>(self.z)
    }

    /// The sum of the scores, added up in order.
    pub open spec fn sum(&self, s: Seq<T>) -> T
        decreases s.len(),
    {
        if s.len() == 0 {
            self.zero
        } else {
            value::<(T, T), T, A>(self.add, (self.sum(s.drop_last()), s.last()))
        }
    }

    /// The squares of the scores.
    pub open spec fn squares(&self, s: Seq<T>) -> Seq<T> {
        s.map_values(|x: T| value::<T, T, Q>(self.square, x))
    }

    /// The mean of the scores.
    pub open spec fn mean(&self, s: Seq<T>) -> T {
        value::<(T, usize), T, V>(self.over, (self.sum(s), s.len() as usize))
    }

    /// The deviation of the scores.
    pub open spec fn spread(&self, s: Seq<T>) -> T {
        value::<(T, T), T, D>(self.deviation, (self.mean(self.squares(s)), self.mean(s)))
    }

    /// The mean and the deviation of `raw[lo..hi]`.
    fn stats(&self, raw: &[T], lo: usize, hi: usize) -> (r: (T, T))
        requires
            self.valid(),
            lo <= hi <= raw@.len(),
        ensures
            r.0 == self.mean(raw@.subrange(lo as int, hi as int)),
            r.1 == self.spread(raw@.subrange(lo as int, hi as int)),
    {
        let ghost part = raw@.subrange(lo as int, hi as int);
        let mut sum: T = self.zero;
        let mut sum_sq: T = self.zero;
        let mut i: usize = lo;
        proof {
            assert(self.squares(part.take(0)) =~= Seq::empty());
        }
        while i < hi
            invariant
                self.valid(),
                lo <= i <= hi <= raw@.len(),
                part == raw@.subrange(lo as int, hi as int),
                sum == self.sum(part.take(i - lo)),
                sum_sq == self.sum(self.squares(part.take(i - lo))),
            decreases hi - i,
        {
            proof {
                let n = i - lo;
                assert(part.take(n + 1).drop_last() =~= part.take(n));
                assert(self.squares(part.take(n + 1)).drop_last() =~= self.squares(part.take(n)));
                assert(part.take(n + 1).last() == raw@[i as int]);
            }
            let x: T = raw[i];
            sum = apply(&self.add, (sum, x));
            let sq: T = apply(&self.square, x);
            sum_sq = apply(&self.add, (sum_sq, sq));
            i = i + 1;
        }
        proof {
            assert(part.take(hi - lo) =~= part);
        }
        let n: usize = hi - lo;
        let mean: T = apply(&self.over, (sum, n));
        let mean_sq: T = apply(&self.over, (sum_sq, n));
        (mean, apply(&self.deviation, (mean_sq, mean)))
    }

    /// The mean that score `i` is centred by: that of all scores, or of its group.
    pub open spec fn centre(&self, raw: Seq<T>, group_size: int, i: int) -> T {
        if group_size == 0 {
            self.mean(raw)
        } else {
            let start = i / group_size * group_size;
            self.mean(raw.subrange(start, start + group_size))
        }
    }

    /// Z-scores: each score centred by the mean of all scores or, with a group size, of its group,
    /// and divided by the deviation of all scores.
    pub open spec fn z_scores(&self, raw: Seq<T>, group_size: int) -> Seq<T> {
        Seq::new(
            raw.len(),
            |i: int|
                value::<(T, T, T, bool), T, Z>(
                    self.z,
                    (raw[i], self.centre(raw, group_size, i), self.spread(raw), true),
                ),
        )
    }

    /// Z-scores: each score centred by the mean of all scores or, with a group size, of its group,
    /// and divided by the deviation of all scores.
    pub fn convert_fitnesses_impl(&self, group_size: i32, raw: &[T]) -> (out: Vec<T>)
        requires
            self.valid(),
            0 <= group_size,
            group_size > 0 ==> raw@.len() % group_size as nat == 0,
        ensures
            out@ == self.z_scores(raw@, group_size as int),
    {
        let n: usize = raw.len();
        let (mean, dev): (T, T) = self.stats(raw, 0, n);
        proof {
            assert(raw@.subrange(0, n as int) =~= raw@);
        }
        let size: usize = if group_size == 0 {
            n
        } else {
            group_size as usize
        };
        let mut out: Vec<T> = Vec::with_capacity(n);
        while out.len() < n
            invariant
                self.valid(),
                n == raw@.len(),
                0 <= group_size,
                group_size > 0 ==> size == group_size && n % size == 0,
                group_size == 0 ==> size == n,
                group_size == 0 ==> mean == self.mean(raw@),
                dev == self.spread(raw@),
                out@.len() <= n,
                out@.len() < n ==> out@.len() as int % size as int == 0,
                forall|i: int|
                    0 <= i < out@.len() ==> #[trigger] out@[i] == value::<(T, T, T, bool), T, Z>(
                        self.z,
                        (
                            raw@[i],
                            self.centre(raw@, group_size as int, i),
                            self.spread(raw@),
                            true,
                        ),
                    ),
            decreases n - out@.len(),
        {
            let lo: usize = out.len();
            proof {
                group_within(lo as int, size as int, n as int);
            }
            let hi: usize = lo + size;
            let (group_mean, _): (T, T) = self.stats(raw, lo, hi);
            let centre: T = if group_size == 0 {
                mean
            } else {
                group_mean
            };
            let mut i: usize = lo;
            while i < hi
                invariant
                    self.valid(),
                    n == raw@.len(),
                    0 < size,
                    lo <= i <= hi == lo + size <= n,
                    lo as int % size as int == 0,
                    0 <= group_size,
                    group_size > 0 ==> size == group_size,
                    group_size > 0 ==> centre == self.mean(
                        raw@.subrange(lo as int, hi as int),
                    ),
                    group_size == 0 ==> centre == self.mean(raw@),
                    dev == self.spread(raw@),
                    out@.len() == i,
                    forall|k: int|
                        0 <= k < i ==> #[trigger] out@[k] == value::<(T, T, T, bool), T, Z>(
                            self.z,
                            (
                                raw@[k],
                                self.centre(raw@, group_size as int, k),
                                self.spread(raw@),
                                true,
                            ),
                        ),
                decreases hi - i,
            {
                proof {
                    lemma_fundamental_div_mod(lo as int, size as int);
                    assert(lo == lo as int / size as int * size) by (nonlinear_arith)
                        requires
                            lo == size * (lo as int / size as int),
                    ;
                    lemma_fundamental_div_mod_converse(
                        i as int,
                        size as int,
                        lo as int / size as int,
                        i - lo,
                    );
                }
                out.push(apply(&self.z, (raw[i], centre, dev, true)));
                i = i + 1;
            }
        }
        proof {
            assert(out@ =~= self.z_scores(raw@, group_size as int));
        }
        out
    }

    /// The z-score at row `r` and column `c` of rows of `g` scores: centred by the first score of
    /// the row and divided by the deviation of the row; the first two columns do not count.
    pub open spec fn baseline_z(&self, raw: Seq<T>, g: int, r: int, c: int) -> T {
        value::<(T, T, T, bool), T, Z>(
            self.z,
            (
                raw[r * g + c],
                raw[r * g],
                self.spread(raw.subrange(r * g, r * g + g)),
                c >= 2,
            ),
        )
    }

    /// Baseline subtraction: the mean over the rows of the z-scores of each column.
    pub open spec fn baseline_scores(&self, raw: Seq<T>, group_size: int) -> Seq<T> {
        Seq::new(
            group_size as nat,
            |c: int|
                self.mean(
                    Seq::new(
                        raw.len() / group_size as nat,
                        |r: int| self.baseline_z(raw, group_size, r, c),
                    ),
                ),
        )
    }

    /// Baseline subtraction: the mean over the rows of the z-scores of each column.
    pub fn convert_fitnesses(&self, group_size: i32, raw: &[T]) -> (out: Vec<T>)
        requires
            self.valid(),
            0 < group_size,
            raw@.len() % group_size as nat == 0,
        ensures
            out@ == self.baseline_scores(raw@, group_size as int),
    {
        let g: usize = group_size as usize;
        let n: usize = raw.len();
        let q: usize = n / g;
        proof {
            lemma_fundamental_div_mod(n as int, g as int);
        }
        let mut devs: Vec<T> = Vec::with_capacity(q);
        let mut r: usize = 0;
        while r < q
            invariant
                self.valid(),
                n == raw@.len() == g * q,
                0 < g,
                r <= q,
                devs@.len() == r,
                forall|k: int|
                    0 <= k < r ==> #[trigger] devs@[k] == self.spread(
                        raw@.subrange(k * g, k * g + g),
                    ),
            decreases q - r,
        {
            proof {
                row_within(r as int, q as int, g as int);
            }
            let lo: usize = r * g;
            let (_, dev): (T, T) = self.stats(raw, lo, lo + g);
            devs.push(dev);
            r = r + 1;
        }
        let mut out: Vec<T> = Vec::with_capacity(g);
        let mut c: usize = 0;
        while c < g
            invariant
                self.valid(),
                n == raw@.len() == g * q,
                g == group_size,
                0 < g,
                c <= g,
                devs@.len() == q,
                forall|k: int|
                    0 <= k < q ==> #[trigger] devs@[k] == self.spread(
                        raw@.subrange(k * g, k * g + g),
                    ),
                out@.len() == c,
                forall|d: int|
                    0 <= d < c ==> #[trigger] out@[d] == self.mean(
                        Seq::new(q as nat, |r: int| self.baseline_z(raw@, g as int, r, d)),
                    ),
            decreases g - c,
        {
            let ghost column = Seq::new(
                q as nat,
                |r: int| self.baseline_z(raw@, g as int, r, c as int),
            );
            let mut sum: T = self.zero;
            let mut r: usize = 0;
            while r < q
                invariant
                    self.valid(),
                    n == raw@.len() == g * q,
                    0 < g,
                    c < g,
                    r <= q,
                    devs@.len() == q,
                    forall|k: int|
                        0 <= k < q ==> #[trigger] devs@[k] == self.spread(
                            raw@.subrange(k * g, k * g + g),
                        ),
                    column == Seq::new(
                        q as nat,
                        |r: int| self.baseline_z(raw@, g as int, r, c as int),
                    ),
                    sum == self.sum(column.take(r as int)),
                decreases q - r,
            {
                proof {
                    row_within(r as int, q as int, g as int);
                    assert(column.take(r + 1).drop_last() =~= column.take(r as int));
                }
                let lo: usize = r * g;
                let z: T = apply(&self.z, (raw[lo + c], raw[lo], devs[r], c >= 2));
                sum = apply(&self.add, (sum, z));
                r = r + 1;
            }
            proof {
                assert(column.take(q as int) =~= column);
            }
            out.push(apply(&self.over, (sum, q)));
            c = c + 1;
        }
        proof {
            assert(raw@.len() / group_size as nat == q);
            assert(out@ =~= self.baseline_scores(raw@, group_size as int));
        }
        out
    }
}

/// The fitnesses that a noiser makes of raw scores: the identity noiser leaves them as they are,
/// [`EggRollBS`](crate::noiser::EggRollBS) subtracts baselines, the others take z-scores.
pub open spec fn noiser_fitnesses<
    T: Copy,
    A: Fn((T, T)) -> T,
    Q: Fn(T) -> T,
    V: Fn((T, usize)) -> T,
    D: Fn((T, T)) -> T,
    Z: Fn((T, T, T, bool)) -> T,
>(
    kind: NoiserKind,
    plain: FitnessOps<T, A, Q, V, D, Z>,
    baseline: FitnessOps<T, A, Q, V, D, Z>,
    group_size: int,
    raw: Seq<T>,
) -> Seq<T> {
    match kind {
        NoiserKind::Base => raw,
        NoiserKind::EggRollBS => baseline.baseline_scores(raw, group_size),
        _ => plain.z_scores(raw, group_size),
    }
}

/// Normalises raw scores as a noiser does: with the arithmetic of `plain` for z-scores, with that
/// of `baseline` for baseline subtraction.
pub fn convert_fitnesses_of<
    T: Copy,
    A: Fn((T, T)) -> T,
    Q: Fn(T) -> T,
    V: Fn((T, usize)) -> T,
    D: Fn((T, T)) -> T,
    Z: Fn((T, T, T, bool)) -> T,
>(
    kind: NoiserKind,
    plain: &FitnessOps<T, A, Q, V, D, Z>,
    baseline: &FitnessOps<T, A, Q, V, D, Z>,
    group_size: i32,
    raw: &[T],
) -> (out: Vec<T>)
    requires
        plain.valid(),
        baseline.valid(),
        kind != NoiserKind::Base ==> 0 <= group_size,
        kind == NoiserKind::EggRollBS ==> 0 < group_size,
        kind != NoiserKind::Base && group_size > 0 ==> raw@.len() % group_size as nat == 0,
    ensures
        out@ == noiser_fitnesses::<T, A, Q, V, D, Z>(
            kind,
            *plain,
            *baseline,
            group_size as int,
            raw@,
        ),
{
    match kind {
        NoiserKind::Base => {
            proof {
                assert(raw@.subrange(0, raw@.len() as int) =~= raw@);
            }
            copy_slice(raw, 0, raw.len())
        },
        NoiserKind::EggRollBS => baseline.convert_fitnesses(group_size, raw),
        _ => plain.convert_fitnesses_impl(group_size, raw),
    }
}

/// A group that starts before the end ends by it.
pub(crate) proof fn group_within(lo: int, size: int, n: int)
    requires
        0 <= lo < n,
        0 < size,
        lo % size == 0,
        n % size == 0,
    ensures
        lo + size <= n,
        (lo + size) % size == 0,
{
    lemma_fundamental_div_mod(lo, size);
    lemma_fundamental_div_mod(n, size);
    let (p, q) = (lo / size, n / size);
    assert(p < q) by (nonlinear_arith)
        requires
            size * p < size * q,
            0 < size,
    ;
    assert(size * p + size <= size * q) by (nonlinear_arith)
        requires
            p + 1 <= q,
            0 < size,
    ;
    lemma_mod_add_multiples_vanish(lo, size);
}

/// A row of `g` within `q` rows.
pub(crate) proof fn row_within(r: int, q: int, g: int)
    requires
        0 <= r < q,
        0 < g,
    ensures
        0 <= r * g,
        r * g + g <= g * q,
{
    assert(0 <= r * g) by (nonlinear_arith)
        requires
            0 <= r,
            0 < g,
    ;
    assert(r * g + g <= g * q) by (nonlinear_arith)
        requires
            r + 1 <= q,
            0 < g,
    ;
}

/// Which predictions hit their labels.
pub fn hits(predictions: &[i64], labels: &[i64]) -> (out: Vec<bool>)
    requires
        predictions@.len() == labels@.len(),
    ensures
        out@ == Seq::new(predictions@.len(), |i: int| predictions@[i] == labels@[i]),
{
    let mut out: Vec<bool> = Vec::with_capacity(predictions.len());
    let mut i: usize = 0;
    while i < predictions.len()
        invariant
            predictions@.len() == labels@.len(),
            i <= predictions@.len(),
            out@ == Seq::new(i as nat, |j: int| predictions@[j] == labels@[j]),
        decreases predictions@.len() - i,
    {
        out.push(predictions[i] == labels[i]);
        i = i + 1;
        proof {
            assert(out@ =~= Seq::new(i as nat, |j: int| predictions@[j] == labels@[j]));
        }
    }
    out
}

} // verus!
