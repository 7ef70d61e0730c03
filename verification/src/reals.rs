//! Sums, means and variances of real numbers: what exact arithmetic computes.

use vstd::prelude::*;

verus! {

/// The sum of numbers.
pub open spec fn real_sum(s: Seq<real>) -> real
    decreases s.len(),
{
    if s.len() == 0 {
        0real
    } else {
        real_sum(s.drop_last()) + s.last()
    }
}

/// The arithmetic mean of numbers.
pub open spec fn real_mean(s: Seq<real>) -> real {
    real_sum(s) / (s.len() as real)
}

/// The mean squared distance of numbers from their mean.
pub open spec fn variance(s: Seq<real>) -> real {
    let m = real_mean(s);
    real_mean(s.map_values(|x: real| (x - m) * (x - m)))
}

/// A quotient times its divisor is the dividend.
pub proof fn quotient_times(a: real, d: real)
    requires
        d != 0real,
    ensures
        (a / d) * d == a,
{
    assert((a / d) * d == a) by (nonlinear_arith)
        requires
            d != 0real,
    ;
}

/// A factor that is not zero can be cancelled.
pub proof fn cancel(a: real, b: real, d: real)
    requires
        a * d == b * d,
        d != 0real,
    ensures
        a == b,
{
    assert(a == b) by (nonlinear_arith)
        requires
            a * d == b * d,
            d != 0real,
    ;
}

/// A product with one.
pub proof fn times_one(a: real)
    ensures
        a * 1real == a,
        a * 0real == 0real,
        0real * a == 0real,
{
    assert(a * 1real == a && a * 0real == 0real && 0real * a == 0real) by (nonlinear_arith);
}

/// Sums of two lists add up.
pub proof fn sum_of_sums(a: Seq<real>, b: Seq<real>, c: Seq<real>)
    requires
        a.len() == b.len() == c.len(),
        forall|i: int| 0 <= i < a.len() ==> #[trigger] c[i] == a[i] + b[i],
    ensures
        real_sum(c) == real_sum(a) + real_sum(b),
    decreases a.len(),
{
    if a.len() > 0 {
        sum_of_sums(a.drop_last(), b.drop_last(), c.drop_last());
        assert(c.last() == a.last() + b.last());
    }
}

/// A common factor stands before a sum.
pub proof fn sum_of_multiples(a: Seq<real>, k: real, c: Seq<real>)
    requires
        a.len() == c.len(),
        forall|i: int| 0 <= i < a.len() ==> #[trigger] c[i] == k * a[i],
    ensures
        real_sum(c) == k * real_sum(a),
    decreases a.len(),
{
    if a.len() == 0 {
        times_one(k);
    } else {
        sum_of_multiples(a.drop_last(), k, c.drop_last());
        let (s, x) = (real_sum(a.drop_last()), a.last());
        assert(c.last() == k * x);
        assert(k * (s + x) == k * s + k * x) by (nonlinear_arith);
    }
}

/// The sum of `n` equal numbers.
pub proof fn sum_of_equals(a: Seq<real>, k: real)
    requires
        forall|i: int| 0 <= i < a.len() ==> #[trigger] a[i] == k,
    ensures
        real_sum(a) == k * (a.len() as real),
    decreases a.len(),
{
    if a.len() == 0 {
        times_one(k);
    } else {
        sum_of_equals(a.drop_last(), k);
        let n = (a.len() - 1) as real;
        assert(a.last() == k);
        assert(k * (n + 1real) == k * n + k) by (nonlinear_arith);
        assert(a.len() as real == n + 1real);
    }
}

/// The sum of a list is that of its parts.
pub proof fn sum_of_concat(a: Seq<real>, b: Seq<real>)
    ensures
        real_sum(a + b) == real_sum(a) + real_sum(b),
    decreases b.len(),
{
    if b.len() == 0 {
        assert(a + b =~= a);
    } else {
        assert((a + b).drop_last() =~= a + b.drop_last());
        sum_of_concat(a, b.drop_last());
    }
}

/// Distances from the mean add up to zero, and their squares to the sum of the squares minus the
/// sum times the mean.
pub proof fn distances_from_mean(s: Seq<real>, m: real)
    requires
        m * (s.len() as real) == real_sum(s),
    ensures
        real_sum(s.map_values(|x: real| x - m)) == 0real,
        real_sum(s.map_values(|x: real| (x - m) * (x - m))) == real_sum(
            s.map_values(|x: real| x * x),
        ) - m * real_sum(s),
{
    let n = s.len() as real;
    let minus = Seq::new(s.len(), |i: int| -m);
    sum_of_equals(minus, -m);
    sum_of_sums(s, minus, s.map_values(|x: real| x - m));
    assert((-m) * n == -(m * n)) by (nonlinear_arith);
    let squares = s.map_values(|x: real| x * x);
    let cross = s.map_values(|x: real| (-2real * m) * x);
    let rest = Seq::new(s.len(), |i: int| m * m);
    let first = Seq::new(s.len(), |i: int| squares[i] + cross[i]);
    sum_of_multiples(s, -2real * m, cross);
    sum_of_equals(rest, m * m);
    sum_of_sums(squares, cross, first);
    let all = s.map_values(|x: real| (x - m) * (x - m));
    assert forall|i: int| 0 <= i < s.len() implies #[trigger] all[i] == first[i] + rest[i] by {
        let x = s[i];
        assert((x - m) * (x - m) == x * x + (-2real * m) * x + m * m) by (nonlinear_arith);
    }
    sum_of_sums(first, rest, all);
    let t = real_sum(s);
    assert((-2real * m) * t + (m * m) * n == -(m * t)) by (nonlinear_arith)
        requires
            m * n == t,
    ;
}

/// The variance of numbers: the mean of their squares minus the square of their mean.
pub proof fn variance_of_squares(s: Seq<real>, mean: real, mean_square: real)
    requires
        s.len() > 0,
        mean * (s.len() as real) == real_sum(s),
        mean_square * (s.len() as real) == real_sum(s.map_values(|x: real| x * x)),
    ensures
        mean == real_mean(s),
        mean_square - mean * mean == variance(s),
{
    let n = s.len() as real;
    quotient_times(real_sum(s), n);
    cancel(mean, real_mean(s), n);
    distances_from_mean(s, mean);
    let all = s.map_values(|x: real| (x - mean) * (x - mean));
    quotient_times(real_sum(all), n);
    let t = real_sum(s);
    assert((mean_square - mean * mean) * n == mean_square * n - mean * t) by (nonlinear_arith)
        requires
            mean * n == t,
    ;
    cancel(mean_square - mean * mean, real_mean(all), n);
}

/// Numbers moved by a constant have the moved mean and the same variance.
pub proof fn moved_numbers(s: Seq<real>, c: real, t: Seq<real>)
    requires
        s.len() == t.len(),
        s.len() > 0,
        forall|i: int| 0 <= i < s.len() ==> #[trigger] t[i] == s[i] + c,
    ensures
        real_mean(t) == real_mean(s) + c,
        variance(t) == variance(s),
{
    let n = s.len() as real;
    let cs = Seq::new(s.len(), |i: int| c);
    sum_of_equals(cs, c);
    sum_of_sums(s, cs, t);
    quotient_times(real_sum(s), n);
    quotient_times(real_sum(t), n);
    let (ms, mt) = (real_mean(s), real_mean(t));
    assert((ms + c) * n == ms * n + c * n) by (nonlinear_arith);
    cancel(mt, ms + c, n);
    let ds = s.map_values(|x: real| (x - ms) * (x - ms));
    let dt = t.map_values(|x: real| (x - mt) * (x - mt));
    assert forall|i: int| 0 <= i < ds.len() implies #[trigger] ds[i] == dt[i] by {
        assert(t[i] == s[i] + c);
    }
    assert(ds =~= dt);
}

} // verus!
