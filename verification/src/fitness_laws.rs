//! What fitness normalisation is for: the laws of z-scores and baselines in exact
//! arithmetic.

use vstd::arithmetic::div_mod::*;
use vstd::prelude::*;

use crate::fitness::{group_within, noiser_fitnesses, row_within, FitnessOps};
use crate::noiser::NoiserKind;
use crate::ops::value;
use crate::reals::{
    cancel, distances_from_mean, moved_numbers, quotient_times, real_mean, real_sum, sum_of_equals,
    sum_of_multiples, times_one, variance, variance_of_squares,
};

verus! {

impl<
    T: Copy,
    A: Fn((T, T)) -> T,
    Q: Fn(T) -> T,
    V: Fn((T, usize)) -> T,
    D: Fn((T, T)) -> T,
    Z: Fn((T, T, T, bool)) -> T,
> FitnessOps<T, A, Q, V, D, Z> {
    /// Whether the arithmetic is exact, numbers being worth real ones: sums, squares and quotients
    /// are what they are called, a deviation is the root of a variance, and a z-score times its
    /// deviation is the distance from the centre, or nothing where it does not count.
    pub open spec fn exact(&self, worth: spec_fn(T) -> real, root: spec_fn(real) -> real) -> bool {
        &&& worth(self.zero) == 0real
        &&& forall|a: T, b: T| #[trigger]
            worth(value::<(T, T), T, A>(self.add, (a, b))) == worth(a) + worth(b)
        &&& forall|x: T| #[trigger] worth(value::<T, T, Q>(self.square, x)) == worth(x) * worth(x)
        &&& forall|x: T, n: usize|
            n > 0 ==> #[trigger] worth(value::<(T, usize), T, V>(self.over, (x, n))) * (n as real)
                == worth(x)
        &&& forall|square: T, mean: T| #[trigger]
            worth(value::<(T, T), T, D>(self.deviation, (square, mean))) == root(
                worth(square) - worth(mean) * worth(mean),
            )
        &&& forall|x: T, c: T, d: T|
            worth(d) != 0real ==> #[trigger] worth(
                value::<(T, T, T, bool), T, Z>(self.z, (x, c, d, true)),
            ) * worth(d) == worth(x) - worth(c)
        &&& forall|x: T, c: T, d: T| #[trigger]
            worth(value::<(T, T, T, bool), T, Z>(self.z, (x, c, d, false))) == 0real
    }

    /// A sum is worth the sum of what is added.
    proof fn sum_is_worth(&self, s: Seq<T>, worth: spec_fn(T) -> real, root: spec_fn(real) -> real)
        requires
            self.exact(worth, root),
        ensures
            worth(self.sum(s)) == real_sum(s.map_values(worth)),
        decreases s.len(),
    {
        if s.len() > 0 {
            self.sum_is_worth(s.drop_last(), worth, root);
            assert(s.map_values(worth).drop_last() =~= s.drop_last().map_values(worth));
        }
    }

    /// Mean and deviation are worth the mean and the root of the variance.
    proof fn stats_are_worth(
        &self,
        s: Seq<T>,
        worth: spec_fn(T) -> real,
        root: spec_fn(real) -> real,
    )
        requires
            self.exact(worth, root),
            0 < s.len() <= usize::MAX,
        ensures
            worth(self.mean(s)) == real_mean(s.map_values(worth)),
            worth(self.spread(s)) == root(variance(s.map_values(worth))),
    {
        let w = s.map_values(worth);
        let n = s.len() as usize;
        self.sum_is_worth(s, worth, root);
        self.sum_is_worth(self.squares(s), worth, root);
        assert(self.squares(s).map_values(worth) =~= w.map_values(|x: real| x * x));
        assert(n as real == w.len() as real);
        assert(worth(value::<(T, usize), T, V>(self.over, (self.sum(s), n))) * (n as real)
            == worth(self.sum(s)));
        assert(worth(value::<(T, usize), T, V>(self.over, (self.sum(self.squares(s)), n))) * (
        n as real) == worth(self.sum(self.squares(s))));
        variance_of_squares(w, worth(self.mean(s)), worth(self.mean(self.squares(s))));
    }

    /// Z-scores are standard: with exact arithmetic and a deviation that is not zero, the distance
    /// of two z-scores of one group times the deviation of all scores is the distance of the raw
    /// scores, and the z-scores of each group add up to zero. Without groups all scores are one
    /// group.
    pub proof fn z_scores_are_standard(
        &self,
        raw: Seq<T>,
        group_size: int,
        worth: spec_fn(T) -> real,
        root: spec_fn(real) -> real,
        start: int,
    )
        requires
            self.exact(worth, root),
            0 < raw.len() <= usize::MAX,
            root(variance(raw.map_values(worth))) != 0real,
            0 <= group_size,
            group_size == 0 ==> start == 0,
            group_size > 0 ==> 0 <= start && start % group_size == 0 && start + group_size
                <= raw.len(),
        ensures
            self.z_scores(raw, group_size).len() == raw.len(),
            ({
                let z = self.z_scores(raw, group_size);
                let end = start + if group_size == 0 {
                    raw.len() as int
                } else {
                    group_size
                };
                let dev = root(variance(raw.map_values(worth)));
                &&& forall|i: int, j: int|
                    start <= i < end && start <= j < end ==> (#[trigger] worth(z[i])
                        - #[trigger] worth(z[j])) * dev == worth(raw[i]) - worth(raw[j])
                &&& real_sum(z.subrange(start, end).map_values(worth)) == 0real
            }),
    {
        let z = self.z_scores(raw, group_size);
        let size = if group_size == 0 {
            raw.len() as int
        } else {
            group_size
        };
        let end = start + size;
        let dev = root(variance(raw.map_values(worth)));
        let part = raw.subrange(start, end);
        let w = part.map_values(worth);
        let m = real_mean(w);
        self.stats_are_worth(raw, worth, root);
        self.stats_are_worth(part, worth, root);
        assert(raw.subrange(0, raw.len() as int) =~= raw);
        assert forall|i: int| start <= i < end implies #[trigger] worth(z[i]) * dev == worth(raw[i])
            - m by {
            if group_size > 0 {
                lemma_fundamental_div_mod(start, group_size);
                let q = start / group_size;
                assert(q * group_size == group_size * q) by (nonlinear_arith);
                lemma_fundamental_div_mod_converse(i, group_size, q, i - start);
            }
            assert(worth(self.centre(raw, group_size, i)) == m);
        }
        assert forall|i: int, j: int| start <= i < end && start <= j < end implies (
        #[trigger] worth(z[i]) - #[trigger] worth(z[j])) * dev == worth(raw[i]) - worth(raw[j]) by {
            let (a, b) = (worth(z[i]), worth(z[j]));
            assert((a - b) * dev == a * dev - b * dev) by (nonlinear_arith);
        }
        let zs = z.subrange(start, end).map_values(worth);
        let ds = w.map_values(|x: real| x - m);
        quotient_times(real_sum(w), size as real);
        distances_from_mean(w, m);
        assert forall|k: int| 0 <= k < zs.len() implies #[trigger] ds[k] == dev * zs[k] by {
            let a = worth(z[start + k]);
            assert(a * dev == dev * a) by (nonlinear_arith);
        }
        sum_of_multiples(zs, dev, ds);
        times_one(dev);
        let t = real_sum(zs);
        assert(t * dev == dev * t) by (nonlinear_arith);
        times_one(dev);
        cancel(t, 0real, dev);
    }

    /// Z-scores keep the order: with exact arithmetic and a positive deviation, of two scores of
    /// one group the higher one has the higher z-score.
    pub proof fn z_scores_keep_order(
        &self,
        raw: Seq<T>,
        group_size: int,
        worth: spec_fn(T) -> real,
        root: spec_fn(real) -> real,
        i: int,
        j: int,
    )
        requires
            self.exact(worth, root),
            raw.len() <= usize::MAX,
            root(variance(raw.map_values(worth))) > 0real,
            0 <= group_size,
            group_size > 0 ==> raw.len() % group_size as nat == 0,
            0 <= i < raw.len(),
            0 <= j < raw.len(),
            group_size > 0 ==> i / group_size == j / group_size,
        ensures
            worth(raw[i]) < worth(raw[j]) <==> worth(self.z_scores(raw, group_size)[i]) < worth(
                self.z_scores(raw, group_size)[j],
            ),
    {
        let dev = root(variance(raw.map_values(worth)));
        let start = if group_size == 0 {
            0
        } else {
            i / group_size * group_size
        };
        if group_size > 0 {
            let q = i / group_size;
            lemma_fundamental_div_mod(i, group_size);
            lemma_fundamental_div_mod(j, group_size);
            assert(group_size * q == q * group_size) by (nonlinear_arith);
            assert(0 <= q * group_size) by (nonlinear_arith)
                requires
                    q == i / group_size,
                    0 <= i,
                    group_size > 0,
            ;
            lemma_mod_multiples_basic(q, group_size);
            group_within(start, group_size, raw.len() as int);
        }
        self.z_scores_are_standard(raw, group_size, worth, root, start);
        let z = self.z_scores(raw, group_size);
        let (a, b) = (worth(z[i]), worth(z[j]));
        let (x, y) = (worth(raw[i]), worth(raw[j]));
        assert((a - b) * dev == x - y);
        assert(x < y <==> a < b) by (nonlinear_arith)
            requires
                (a - b) * dev == x - y,
                dev > 0real,
        ;
    }

    /// Z-scores have unit variance: without groups and with exact arithmetic, the squares of the
    /// z-scores add up to the number of scores, where the deviation is the root of the variance
    /// itself; in general times its square to that of the variance.
    pub proof fn z_scores_have_unit_variance(
        &self,
        raw: Seq<T>,
        worth: spec_fn(T) -> real,
        root: spec_fn(real) -> real,
    )
        requires
            self.exact(worth, root),
            0 < raw.len() <= usize::MAX,
            root(variance(raw.map_values(worth))) != 0real,
        ensures
            ({
                let dev = root(variance(raw.map_values(worth)));
                let squares = self.z_scores(raw, 0).map_values(|z: T| worth(z) * worth(z));
                &&& (dev * dev) * real_sum(squares) == variance(raw.map_values(worth)) * (
                raw.len() as real)
                &&& dev * dev == variance(raw.map_values(worth)) ==> real_sum(squares)
                    == raw.len() as real
            }),
    {
        let w = raw.map_values(worth);
        let v = variance(w);
        let dev = root(v);
        let n = raw.len() as real;
        let m = real_mean(w);
        let z = self.z_scores(raw, 0);
        let squares = z.map_values(|z: T| worth(z) * worth(z));
        let ds = w.map_values(|x: real| (x - m) * (x - m));
        self.stats_are_worth(raw, worth, root);
        assert forall|k: int| 0 <= k < squares.len() implies #[trigger] ds[k] == (dev * dev)
            * squares[k] by {
            let a = worth(z[k]);
            assert(a * dev == worth(raw[k]) - m);
            let d = worth(raw[k]) - m;
            assert(d * d == (dev * dev) * (a * a)) by (nonlinear_arith)
                requires
                    a * dev == d,
            ;
        }
        sum_of_multiples(squares, dev * dev, ds);
        quotient_times(real_sum(ds), n);
        if dev * dev == v {
            let t = real_sum(squares);
            assert(v != 0real) by (nonlinear_arith)
                requires
                    dev * dev == v,
                    dev != 0real,
            ;
            assert(t * v == n * v) by (nonlinear_arith)
                requires
                    v * t == v * n,
            ;
            cancel(t, n, v);
        }
    }

    /// One group that holds all scores is no group.
    pub proof fn one_group_is_no_group(&self, raw: Seq<T>)
        requires
            0 < raw.len(),
        ensures
            self.z_scores(raw, raw.len() as int) == self.z_scores(raw, 0),
    {
        let n = raw.len() as int;
        assert forall|i: int| 0 <= i < n implies self.centre(raw, n, i) == #[trigger] self.centre(
            raw,
            0,
            i,
        ) by {
            lemma_basic_div(i, n);
            assert(0 * n == 0);
            assert(raw.subrange(0, n) =~= raw);
        }
        assert(self.z_scores(raw, n) =~= self.z_scores(raw, 0));
    }

    /// Only differences count: with exact arithmetic, adding a constant to all raw scores changes
    /// no z-score.
    pub proof fn z_scores_ignore_constants(
        &self,
        raw: Seq<T>,
        moved: Seq<T>,
        c: real,
        group_size: int,
        worth: spec_fn(T) -> real,
        root: spec_fn(real) -> real,
        i: int,
    )
        requires
            self.exact(worth, root),
            raw.len() == moved.len() <= usize::MAX,
            root(variance(raw.map_values(worth))) != 0real,
            0 <= group_size,
            group_size > 0 ==> raw.len() % group_size as nat == 0,
            0 <= i < raw.len(),
            forall|k: int| 0 <= k < raw.len() ==> worth(#[trigger] moved[k]) == worth(raw[k]) + c,
        ensures
            worth(self.z_scores(moved, group_size)[i]) == worth(self.z_scores(raw, group_size)[i]),
    {
        let (w, u) = (raw.map_values(worth), moved.map_values(worth));
        assert forall|k: int| 0 <= k < w.len() implies #[trigger] u[k] == w[k] + c by {
            assert(worth(moved[k]) == worth(raw[k]) + c);
        }
        moved_numbers(w, c, u);
        self.stats_are_worth(raw, worth, root);
        self.stats_are_worth(moved, worth, root);
        if group_size > 0 {
            let q = i / group_size;
            let start = q * group_size;
            lemma_fundamental_div_mod(i, group_size);
            assert(group_size * q == q * group_size) by (nonlinear_arith);
            assert(0 <= q * group_size) by (nonlinear_arith)
                requires
                    q == i / group_size,
                    0 <= i,
                    group_size > 0,
            ;
            lemma_mod_multiples_basic(q, group_size);
            group_within(start, group_size, raw.len() as int);
            let (p, r) = (
                raw.subrange(start, start + group_size),
                moved.subrange(start, start + group_size),
            );
            let (wp, wr) = (p.map_values(worth), r.map_values(worth));
            assert forall|k: int| 0 <= k < wp.len() implies #[trigger] wr[k] == wp[k] + c by {
                assert(worth(moved[start + k]) == worth(raw[start + k]) + c);
            }
            moved_numbers(wp, c, wr);
            self.stats_are_worth(p, worth, root);
            self.stats_are_worth(r, worth, root);
        }
        let dev = root(variance(w));
        let (a, b) = (
            worth(self.z_scores(moved, group_size)[i]),
            worth(self.z_scores(raw, group_size)[i]),
        );
        assert(a * dev == b * dev);
        cancel(a, b, dev);
    }

    /// Baseline subtraction: with exact arithmetic, the fitness of a direction is the mean over the
    /// rows of the distance of its score from the first score of the row, in deviations of the
    /// row; the first two directions of a row have none.
    pub proof fn baselines_are_subtracted(
        &self,
        raw: Seq<T>,
        g: int,
        worth: spec_fn(T) -> real,
        root: spec_fn(real) -> real,
        c: int,
    )
        requires
            self.exact(worth, root),
            0 < g <= usize::MAX,
            0 < raw.len() <= usize::MAX,
            raw.len() % g as nat == 0,
            0 <= c < g,
            forall|r: int|
                0 <= r < raw.len() as int / g ==> root(
                    variance(#[trigger] raw.subrange(r * g, r * g + g).map_values(worth)),
                ) != 0real,
        ensures
            self.baseline_scores(raw, g).len() == g,
            c < 2 ==> worth(self.baseline_scores(raw, g)[c]) == 0real,
            c >= 2 ==> worth(self.baseline_scores(raw, g)[c]) == real_mean(
                Seq::new(
                    (raw.len() as int / g) as nat,
                    |r: int|
                        (worth(raw[r * g + c]) - worth(raw[r * g])) / root(
                            variance(raw.subrange(r * g, r * g + g).map_values(worth)),
                        ),
                ),
            ),
    {
        let q = raw.len() as int / g;
        lemma_fundamental_div_mod(raw.len() as int, g);
        assert(q > 0) by (nonlinear_arith)
            requires
                g * q > 0,
                g > 0,
        ;
        assert(q <= raw.len()) by (nonlinear_arith)
            requires
                g * q == raw.len(),
                g >= 1,
                q >= 0,
        ;
        let column = Seq::new(q as nat, |r: int| self.baseline_z(raw, g, r, c));
        assert(raw.len() / g as nat == q);
        self.stats_are_worth(column, worth, root);
        let w = column.map_values(worth);
        if c < 2 {
            sum_of_equals(w, 0real);
            times_one(q as real);
            quotient_times(0real, q as real);
            times_one(q as real);
            cancel(0real / (q as real), 0real, q as real);
        } else {
            let ratios = Seq::new(
                q as nat,
                |r: int|
                    (worth(raw[r * g + c]) - worth(raw[r * g])) / root(
                        variance(raw.subrange(r * g, r * g + g).map_values(worth)),
                    ),
            );
            assert forall|r: int| 0 <= r < q implies #[trigger] w[r] == ratios[r] by {
                row_within(r, q, g);
                let row = raw.subrange(r * g, r * g + g);
                self.stats_are_worth(row, worth, root);
                let dev = root(variance(row.map_values(worth)));
                let d = worth(raw[r * g + c]) - worth(raw[r * g]);
                quotient_times(d, dev);
                cancel(w[r], d / dev, dev);
            }
            assert(w =~= ratios);
        }
    }
}

/// Noisers normalise: the identity noiser leaves raw scores as they are. The noiser with baselines
/// gives a fitness to each direction of a group, none to the first two. With exact arithmetic and
/// without groups, the fitnesses of all others have the distances of the raw scores, in deviations,
/// and add up to zero.
pub proof fn noisers_normalise<
    T: Copy,
    A: Fn((T, T)) -> T,
    Q: Fn(T) -> T,
    V: Fn((T, usize)) -> T,
    D: Fn((T, T)) -> T,
    Z: Fn((T, T, T, bool)) -> T,
>(
    kind: NoiserKind,
    plain: FitnessOps<T, A, Q, V, D, Z>,
    baseline: FitnessOps<T, A, Q, V, D, Z>,
    g: int,
    raw: Seq<T>,
    worth: spec_fn(T) -> real,
    root: spec_fn(real) -> real,
    c: int,
)
    requires
        0 < raw.len() <= usize::MAX,
        kind != NoiserKind::Base && kind != NoiserKind::EggRollBS ==> plain.exact(worth, root)
            && root(variance(raw.map_values(worth))) != 0real,
        kind == NoiserKind::EggRollBS ==> {
            &&& baseline.exact(worth, root)
            &&& 0 < g <= usize::MAX
            &&& raw.len() % g as nat == 0
            &&& 0 <= c < g
            &&& forall|r: int|
                0 <= r < raw.len() as int / g ==> root(
                    variance(#[trigger] raw.subrange(r * g, r * g + g).map_values(worth)),
                ) != 0real
        },
    ensures
        match kind {
            NoiserKind::Base => noiser_fitnesses(kind, plain, baseline, g, raw) == raw,
            NoiserKind::EggRollBS => {
                let f = noiser_fitnesses(kind, plain, baseline, g, raw);
                &&& f.len() == g
                &&& c < 2 ==> worth(f[c]) == 0real
            },
            _ => {
                let f = noiser_fitnesses(kind, plain, baseline, 0, raw);
                let dev = root(variance(raw.map_values(worth)));
                &&& f.len() == raw.len()
                &&& real_sum(f.map_values(worth)) == 0real
                &&& forall|i: int, j: int|
                    0 <= i < f.len() && 0 <= j < f.len() ==> (#[trigger] worth(f[i])
                        - #[trigger] worth(f[j])) * dev == worth(raw[i]) - worth(raw[j])
            },
        },
{
    match kind {
        NoiserKind::Base => {},
        NoiserKind::EggRollBS => {
            baseline.baselines_are_subtracted(raw, g, worth, root, c);
        },
        _ => {
            plain.z_scores_are_standard(raw, 0, worth, root, 0);
            let z = plain.z_scores(raw, 0);
            assert(z.subrange(0, raw.len() as int) =~= z);
        },
    }
}

} // verus!
