//! What an epoch is for: in exact arithmetic its gradients are those of the
//! z-scores of the whole batch.

use vstd::prelude::*;

use crate::epoch::{chunk_range, ChunkSums, EpochOps};
use crate::ops::{value1, value2, value3, value4};
use crate::reals::{
    cancel, moved_numbers, real_mean, real_sum, sum_of_concat, sum_of_multiples, sum_of_sums,
    variance, variance_of_squares,
};
use crate::solver::{AdamRule, Solver, SolverOps, Stepped};
use crate::solver_laws::AdamSettings;

verus! {

/// The sum of the products of two lists.
pub open spec fn dot(a: Seq<real>, b: Seq<real>) -> real {
    real_sum(Seq::new(a.len(), |j: int| a[j] * b[j]))
}

/// The first `n` lists, one behind the other.
pub open spec fn chained(parts: Seq<Seq<real>>, n: nat) -> Seq<real>
    decreases n,
{
    if n == 0 {
        Seq::empty()
    } else {
        chained(parts, (n - 1) as nat) + parts[n - 1]
    }
}

/// The products of two lists are those of their parts.
proof fn dot_of_concat(a: Seq<real>, b: Seq<real>, c: Seq<real>, d: Seq<real>)
    requires
        a.len() == b.len(),
        c.len() == d.len(),
    ensures
        dot(a + c, b + d) == dot(a, b) + dot(c, d),
{
    let (x, y) = (
        Seq::new(a.len(), |j: int| a[j] * b[j]),
        Seq::new(c.len(), |j: int| c[j] * d[j]),
    );
    sum_of_concat(x, y);
    assert(Seq::new((a + c).len(), |j: int| (a + c)[j] * (b + d)[j]) =~= x + y);
}

/// Whether the arithmetic of an epoch is exact in a coordinate of the parameters.
pub open spec fn epoch_exact<
    P,
    F,
    EV,
    ZE: Fn(&P) -> P,
    AD: Fn(&P, &P) -> P,
    PL: Fn(&F, &F) -> F,
    OV: Fn(&F, &usize) -> F,
    DE: Fn(&F, &F) -> F,
    TI: Fn(&P, &F) -> P,
    MI: Fn(&P, &P) -> P,
    FA: Fn(&F, &usize) -> F,
>(
    ops: EpochOps<F, EV, ZE, AD, PL, OV, DE, TI, MI, FA>,
    worth: spec_fn(P) -> real,
    number: spec_fn(F) -> real,
    root: spec_fn(real) -> real,
    unit: real,
    n: usize,
) -> bool {
    &&& forall|p: P| #[trigger] worth(value1::<P, P, ZE>(ops.zeros, p)) == 0real
    &&& forall|a: P, b: P| #[trigger]
        worth(value2::<P, P, P, AD>(ops.add, a, b)) == worth(a) + worth(b)
    &&& number(ops.zero) == 0real
    &&& forall|a: F, b: F| #[trigger]
        number(value2::<F, F, F, PL>(ops.plus, a, b)) == number(a) + number(b)
    &&& forall|x: F| #[trigger]
        number(value2::<F, usize, F, OV>(ops.over, x, n)) * (n as real) == number(x)
    &&& forall|mean: F, square: F| #[trigger]
        number(value2::<F, F, F, DE>(ops.deviation, mean, square)) == root(
            number(square) - number(mean) * number(mean),
        )
    &&& forall|p: P, x: F| #[trigger]
        worth(value2::<P, F, P, TI>(ops.affine.times, p, x)) == worth(p) * number(x)
    &&& forall|a: P, b: P| #[trigger]
        worth(value2::<P, P, P, MI>(ops.affine.minus, a, b)) == worth(a) - worth(b)
    &&& forall|std: F|
        number(std) != 0real ==> #[trigger] number(
            value2::<F, usize, F, FA>(ops.affine.factor, std, n),
        ) * number(std) == -unit
}

/// Whether the sums of chunks are those of samples: `fits` holds the raw fitnesses of each chunk,
/// `noise` what the noise of parameter `i` is worth in each of its samples.
pub open spec fn sums_of_samples<P, F>(
    chunks: Seq<ChunkSums<P, F>>,
    fits: Seq<Seq<real>>,
    noise: Seq<Seq<real>>,
    i: int,
    worth: spec_fn(P) -> real,
    number: spec_fn(F) -> real,
) -> bool {
    &&& fits.len() == chunks.len()
    &&& noise.len() == chunks.len()
    &&& forall|k: int|
        0 <= k < chunks.len() ==> {
            let c = #[trigger] chunks[k];
            &&& fits[k].len() == noise[k].len()
            &&& worth(c.raw@[i]) == dot(fits[k], noise[k])
            &&& worth(c.ones@[i]) == real_sum(noise[k])
            &&& number(c.total) == real_sum(fits[k])
            &&& number(c.squares) == real_sum(fits[k].map_values(|x: real| x * x))
        }
}

/// The sums of chunks are those of all their samples.
proof fn sums_are_chained<
    P,
    F,
    EV,
    ZE: Fn(&P) -> P,
    AD: Fn(&P, &P) -> P,
    PL: Fn(&F, &F) -> F,
    OV: Fn(&F, &usize) -> F,
    DE: Fn(&F, &F) -> F,
    TI: Fn(&P, &F) -> P,
    MI: Fn(&P, &P) -> P,
    FA: Fn(&F, &usize) -> F,
>(
    ops: EpochOps<F, EV, ZE, AD, PL, OV, DE, TI, MI, FA>,
    params: Seq<P>,
    chunks: Seq<ChunkSums<P, F>>,
    fits: Seq<Seq<real>>,
    noise: Seq<Seq<real>>,
    n: nat,
    i: int,
    worth: spec_fn(P) -> real,
    number: spec_fn(F) -> real,
    root: spec_fn(real) -> real,
    unit: real,
    batch: usize,
)
    requires
        epoch_exact::<P, F, EV, ZE, AD, PL, OV, DE, TI, MI, FA>(
            ops,
            worth,
            number,
            root,
            unit,
            batch,
        ),
        sums_of_samples(chunks, fits, noise, i, worth, number),
        0 <= i < params.len(),
        n <= chunks.len(),
    ensures
        ({
            let sums = ops.sums_after::<P>(params, chunks, n);
            let (f, x) = (chained(fits, n), chained(noise, n));
            &&& sums.raw.len() == params.len()
            &&& sums.ones.len() == params.len()
            &&& f.len() == x.len()
            &&& worth(sums.raw[i]) == dot(f, x)
            &&& worth(sums.ones[i]) == real_sum(x)
            &&& number(sums.total) == real_sum(f)
            &&& number(sums.squares) == real_sum(f.map_values(|x: real| x * x))
        }),
    decreases n,
{
    let (f, x) = (chained(fits, n), chained(noise, n));
    if n == 0 {
        assert(f.map_values(|x: real| x * x) =~= Seq::empty());
        assert(Seq::new(f.len(), |j: int| f[j] * x[j]) =~= Seq::empty());
    } else {
        let m = (n - 1) as nat;
        sums_are_chained::<P, F, EV, ZE, AD, PL, OV, DE, TI, MI, FA>(
            ops,
            params,
            chunks,
            fits,
            noise,
            m,
            i,
            worth,
            number,
            root,
            unit,
            batch,
        );
        let (f0, x0) = (chained(fits, m), chained(noise, m));
        let (f1, x1) = (fits[m as int], noise[m as int]);
        assert(chunks[m as int].raw@ == chunks[m as int]@.raw);
        dot_of_concat(f0, x0, f1, x1);
        sum_of_concat(f0, f1);
        sum_of_concat(x0, x1);
        let sq = |x: real| x * x;
        sum_of_concat(f0.map_values(sq), f1.map_values(sq));
        assert((f0 + f1).map_values(sq) =~= f0.map_values(sq) + f1.map_values(sq));
    }
}

/// Products with distances from a number are the products minus that number times the sum.
proof fn dot_of_distances(f: Seq<real>, x: Seq<real>, m: real)
    requires
        f.len() == x.len(),
    ensures
        dot(f.map_values(|v: real| v - m), x) == dot(f, x) - m * real_sum(x),
{
    let a = Seq::new(f.len(), |j: int| f[j] * x[j]);
    let b = Seq::new(f.len(), |j: int| (-m) * x[j]);
    let d = f.map_values(|v: real| v - m);
    let c = Seq::new(d.len(), |j: int| d[j] * x[j]);
    sum_of_multiples(x, -m, b);
    assert forall|j: int| 0 <= j < c.len() implies #[trigger] c[j] == a[j] + b[j] by {
        let (u, v) = (f[j], x[j]);
        assert((u - m) * v == u * v + (-m) * v) by (nonlinear_arith);
    }
    sum_of_sums(a, b, c);
    let t = real_sum(x);
    assert((-m) * t == -(m * t)) by (nonlinear_arith);
}

/// Gradients of an epoch: in exact arithmetic the gradient of a parameter times the deviation of
/// all fitnesses is, negated and rescaled, the sum over all samples of the noise times the
/// distance of the fitness from the mean of all fitnesses.
#[verifier::spinoff_prover]
pub proof fn epoch_gradients_are_centred<
    P,
    F,
    EV,
    ZE: Fn(&P) -> P,
    AD: Fn(&P, &P) -> P,
    PL: Fn(&F, &F) -> F,
    OV: Fn(&F, &usize) -> F,
    DE: Fn(&F, &F) -> F,
    TI: Fn(&P, &F) -> P,
    MI: Fn(&P, &P) -> P,
    FA: Fn(&F, &usize) -> F,
>(
    ops: EpochOps<F, EV, ZE, AD, PL, OV, DE, TI, MI, FA>,
    params: Seq<P>,
    chunks: Seq<ChunkSums<P, F>>,
    fits: Seq<Seq<real>>,
    noise: Seq<Seq<real>>,
    i: int,
    worth: spec_fn(P) -> real,
    number: spec_fn(F) -> real,
    root: spec_fn(real) -> real,
    unit: real,
    batch: usize,
)
    requires
        epoch_exact::<P, F, EV, ZE, AD, PL, OV, DE, TI, MI, FA>(
            ops,
            worth,
            number,
            root,
            unit,
            batch,
        ),
        sums_of_samples(chunks, fits, noise, i, worth, number),
        0 <= i < params.len(),
        batch > 0,
        chained(fits, chunks.len()).len() == batch,
        root(variance(chained(fits, chunks.len()))) != 0real,
    ensures
        ({
            let (f, x) = (chained(fits, chunks.len()), chained(noise, chunks.len()));
            let sums = ops.sums_after::<P>(params, chunks, chunks.len());
            let grads = ops.gradients::<P>(sums, batch);
            let m = real_mean(f);
            &&& grads.len() == params.len()
            &&& worth(grads[i]) * root(variance(f)) == -unit * dot(
                f.map_values(|v: real| v - m),
                x,
            )
        }),
{
    let (f, x) = (chained(fits, chunks.len()), chained(noise, chunks.len()));
    let sums = ops.sums_after::<P>(params, chunks, chunks.len());
    sums_are_chained::<P, F, EV, ZE, AD, PL, OV, DE, TI, MI, FA>(
        ops,
        params,
        chunks,
        fits,
        noise,
        chunks.len(),
        i,
        worth,
        number,
        root,
        unit,
        batch,
    );
    let mean = value2::<F, usize, F, OV>(ops.over, sums.total, batch);
    let square = value2::<F, usize, F, OV>(ops.over, sums.squares, batch);
    assert(number(mean) * (batch as real) == number(sums.total));
    assert(number(square) * (batch as real) == number(sums.squares));
    assert(batch as real == f.len() as real);
    variance_of_squares(f, number(mean), number(square));
    let std = value2::<F, F, F, DE>(ops.deviation, mean, square);
    let dev = root(variance(f));
    assert(number(std) == dev);
    let factor = value2::<F, usize, F, FA>(ops.affine.factor, std, batch);
    assert(number(factor) * dev == -unit);
    let m = real_mean(f);
    dot_of_distances(f, x, m);
    let grads = ops.gradients::<P>(sums, batch);
    let (r, o) = (worth(sums.raw[i]), worth(sums.ones[i]));
    assert(worth(value2::<P, F, P, TI>(ops.affine.times, sums.ones[i], mean)) == o * m);
    let inner = dot(f.map_values(|v: real| v - m), x);
    assert(o * m == m * o) by (nonlinear_arith);
    assert(worth(grads[i]) == inner * number(factor));
    let w = number(factor);
    assert((inner * w) * dev == -unit * inner) by (nonlinear_arith)
        requires
            w * dev == -unit,
    ;
}

/// Gradients of an epoch are those of z-scores: they are, negated and rescaled, the sum over all
/// samples of the noise times the z-score of the fitness within the whole batch.
pub proof fn epoch_gradients_use_z_scores<
    P,
    F,
    EV,
    ZE: Fn(&P) -> P,
    AD: Fn(&P, &P) -> P,
    PL: Fn(&F, &F) -> F,
    OV: Fn(&F, &usize) -> F,
    DE: Fn(&F, &F) -> F,
    TI: Fn(&P, &F) -> P,
    MI: Fn(&P, &P) -> P,
    FA: Fn(&F, &usize) -> F,
>(
    ops: EpochOps<F, EV, ZE, AD, PL, OV, DE, TI, MI, FA>,
    params: Seq<P>,
    chunks: Seq<ChunkSums<P, F>>,
    fits: Seq<Seq<real>>,
    noise: Seq<Seq<real>>,
    zs: Seq<real>,
    i: int,
    worth: spec_fn(P) -> real,
    number: spec_fn(F) -> real,
    root: spec_fn(real) -> real,
    unit: real,
    batch: usize,
)
    requires
        epoch_exact::<P, F, EV, ZE, AD, PL, OV, DE, TI, MI, FA>(
            ops,
            worth,
            number,
            root,
            unit,
            batch,
        ),
        sums_of_samples(chunks, fits, noise, i, worth, number),
        0 <= i < params.len(),
        batch > 0,
        chained(fits, chunks.len()).len() == batch,
        root(variance(chained(fits, chunks.len()))) != 0real,
        zs.len() == batch,
        forall|j: int|
            0 <= j < batch ==> #[trigger] zs[j] * root(variance(chained(fits, chunks.len())))
                == chained(fits, chunks.len())[j] - real_mean(chained(fits, chunks.len())),
    ensures
        worth(
            ops.gradients::<P>(ops.sums_after::<P>(params, chunks, chunks.len()), batch)[i],
        ) == -unit * dot(zs, chained(noise, chunks.len())),
{
    let (f, x) = (chained(fits, chunks.len()), chained(noise, chunks.len()));
    let (m, dev) = (real_mean(f), root(variance(f)));
    epoch_gradients_are_centred::<P, F, EV, ZE, AD, PL, OV, DE, TI, MI, FA>(
        ops,
        params,
        chunks,
        fits,
        noise,
        i,
        worth,
        number,
        root,
        unit,
        batch,
    );
    sums_are_chained::<P, F, EV, ZE, AD, PL, OV, DE, TI, MI, FA>(
        ops,
        params,
        chunks,
        fits,
        noise,
        chunks.len(),
        i,
        worth,
        number,
        root,
        unit,
        batch,
    );
    let d = f.map_values(|v: real| v - m);
    let a = Seq::new(zs.len(), |j: int| zs[j] * x[j]);
    let b = Seq::new(d.len(), |j: int| d[j] * x[j]);
    assert forall|j: int| 0 <= j < a.len() implies #[trigger] b[j] == dev * a[j] by {
        let (z, v) = (zs[j], x[j]);
        assert(z * dev == d[j]);
        assert((z * dev) * v == dev * (z * v)) by (nonlinear_arith);
    }
    sum_of_multiples(a, dev, b);
    let g = worth(ops.gradients::<P>(ops.sums_after::<P>(params, chunks, chunks.len()), batch)[i]);
    let t = real_sum(a);
    assert(g * dev == (-unit * t) * dev) by (nonlinear_arith)
        requires
            g * dev == -unit * (dev * t),
    ;
    cancel(g, -unit * t, dev);
}

/// Only differences of fitnesses count: adding a constant to every raw fitness of an epoch changes
/// no gradient.
pub proof fn epoch_gradients_ignore_constants<
    P,
    F,
    EV,
    ZE: Fn(&P) -> P,
    AD: Fn(&P, &P) -> P,
    PL: Fn(&F, &F) -> F,
    OV: Fn(&F, &usize) -> F,
    DE: Fn(&F, &F) -> F,
    TI: Fn(&P, &F) -> P,
    MI: Fn(&P, &P) -> P,
    FA: Fn(&F, &usize) -> F,
>(
    ops: EpochOps<F, EV, ZE, AD, PL, OV, DE, TI, MI, FA>,
    params: Seq<P>,
    chunks: Seq<ChunkSums<P, F>>,
    moved: Seq<ChunkSums<P, F>>,
    fits: Seq<Seq<real>>,
    moved_fits: Seq<Seq<real>>,
    noise: Seq<Seq<real>>,
    c: real,
    i: int,
    worth: spec_fn(P) -> real,
    number: spec_fn(F) -> real,
    root: spec_fn(real) -> real,
    unit: real,
    batch: usize,
)
    requires
        epoch_exact::<P, F, EV, ZE, AD, PL, OV, DE, TI, MI, FA>(
            ops,
            worth,
            number,
            root,
            unit,
            batch,
        ),
        sums_of_samples(chunks, fits, noise, i, worth, number),
        sums_of_samples(moved, moved_fits, noise, i, worth, number),
        chunks.len() == moved.len(),
        0 <= i < params.len(),
        batch > 0,
        chained(fits, chunks.len()).len() == batch,
        chained(moved_fits, chunks.len()).len() == batch,
        root(variance(chained(fits, chunks.len()))) != 0real,
        forall|j: int|
            0 <= j < batch ==> #[trigger] chained(moved_fits, chunks.len())[j] == chained(
                fits,
                chunks.len(),
            )[j] + c,
    ensures
        worth(ops.gradients::<P>(ops.sums_after::<P>(params, moved, moved.len()), batch)[i])
            == worth(
            ops.gradients::<P>(ops.sums_after::<P>(params, chunks, chunks.len()), batch)[i],
        ),
{
    let (f, g) = (chained(fits, chunks.len()), chained(moved_fits, chunks.len()));
    moved_numbers(f, c, g);
    epoch_gradients_are_centred::<P, F, EV, ZE, AD, PL, OV, DE, TI, MI, FA>(
        ops,
        params,
        chunks,
        fits,
        noise,
        i,
        worth,
        number,
        root,
        unit,
        batch,
    );
    epoch_gradients_are_centred::<P, F, EV, ZE, AD, PL, OV, DE, TI, MI, FA>(
        ops,
        params,
        moved,
        moved_fits,
        noise,
        i,
        worth,
        number,
        root,
        unit,
        batch,
    );
    let (mf, mg) = (real_mean(f), real_mean(g));
    assert(f.map_values(|v: real| v - mf) =~= g.map_values(|v: real| v - mg));
    cancel(
        worth(ops.gradients::<P>(ops.sums_after::<P>(params, moved, moved.len()), batch)[i]),
        worth(ops.gradients::<P>(ops.sums_after::<P>(params, chunks, chunks.len()), batch)[i]),
        root(variance(f)),
    );
}

/// The right answers of the chunks of an epoch.
pub open spec fn answers<P, F>(
    chunks: Seq<ChunkSums<P, F>>,
    number: spec_fn(F) -> real,
) -> Seq<real> {
    chunks.map_values(|c: ChunkSums<P, F>| number(c.correct))
}

proof fn answers_add_up<
    P,
    F,
    EV,
    ZE: Fn(&P) -> P,
    AD: Fn(&P, &P) -> P,
    PL: Fn(&F, &F) -> F,
    OV: Fn(&F, &usize) -> F,
    DE: Fn(&F, &F) -> F,
    TI: Fn(&P, &F) -> P,
    MI: Fn(&P, &P) -> P,
    FA: Fn(&F, &usize) -> F,
>(
    ops: EpochOps<F, EV, ZE, AD, PL, OV, DE, TI, MI, FA>,
    params: Seq<P>,
    chunks: Seq<ChunkSums<P, F>>,
    n: nat,
    number: spec_fn(F) -> real,
)
    requires
        number(ops.zero) == 0real,
        forall|a: F, b: F| #[trigger]
            number(value2::<F, F, F, PL>(ops.plus, a, b)) == number(a) + number(b),
        n <= chunks.len(),
    ensures
        number(ops.sums_after::<P>(params, chunks, n).correct) == real_sum(
            answers(chunks, number).take(n as int),
        ),
    decreases n,
{
    let all = answers(chunks, number);
    if n == 0 {
        assert(all.take(0) =~= Seq::empty());
    } else {
        answers_add_up::<P, F, EV, ZE, AD, PL, OV, DE, TI, MI, FA>(
            ops,
            params,
            chunks,
            (n - 1) as nat,
            number,
        );
        assert(all.take(n as int).drop_last() =~= all.take(n - 1));
    }
}

/// An epoch of plain descent: in exact arithmetic the parameter moves by the learning rate times,
/// rescaled, the sum over all samples of the noise times the z-score of the fitness, towards the
/// noise of the fitter samples; and the share of right answers times the number of samples is how
/// many answers were right.
pub proof fn epochs_climb<
    P,
    F,
    EV,
    ZE: Fn(&P) -> P,
    AD: Fn(&P, &P) -> P,
    PL: Fn(&F, &F) -> F,
    OV: Fn(&F, &usize) -> F,
    DE: Fn(&F, &F) -> F,
    TI: Fn(&P, &F) -> P,
    MI: Fn(&P, &P) -> P,
    FA: Fn(&F, &usize) -> F,
    S,
    O1: Fn(&P, &P, &S) -> P,
    O2: Fn(&P, &P, &S) -> P,
    O3: Fn(&P, &P, &S) -> P,
    O4: Fn(&P, &P, &P, &AdamRule<S>) -> P,
    O5: Fn(&Vec<P>, &S) -> Vec<P>,
>(
    ops: EpochOps<F, EV, ZE, AD, PL, OV, DE, TI, MI, FA>,
    solver_ops: SolverOps<O1, O2, O3, O4, O5>,
    lr: S,
    at: Stepped<P>,
    chunks: Seq<ChunkSums<P, F>>,
    fits: Seq<Seq<real>>,
    noise: Seq<Seq<real>>,
    accumulate: usize,
    chunk: usize,
    i: int,
    worth: spec_fn(P) -> real,
    number: spec_fn(F) -> real,
    scalar: spec_fn(S) -> real,
    root: spec_fn(real) -> real,
    unit: real,
)
    requires
        accumulate * chunk <= usize::MAX,
        epoch_exact::<P, F, EV, ZE, AD, PL, OV, DE, TI, MI, FA>(
            ops,
            worth,
            number,
            root,
            unit,
            (accumulate * chunk) as usize,
        ),
        solver_ops.descends_exactly::<P, S>(worth, scalar),
        chunks.len() == accumulate,
        sums_of_samples(chunks, fits, noise, i, worth, number),
        0 <= i < at.params.len(),
        0 < accumulate * chunk,
        chained(fits, chunks.len()).len() == accumulate * chunk,
        root(variance(chained(fits, chunks.len()))) != 0real,
    ensures
        ({
            let (next, share) = ops.epoch_after::<P, S, O1, O2, O3, O4, O5>(
                solver_ops,
                Solver::Sgd { lr },
                at,
                chunks,
                accumulate,
                chunk,
            );
            let (f, x) = (chained(fits, chunks.len()), chained(noise, chunks.len()));
            let m = real_mean(f);
            &&& next.params.len() == at.params.len()
            &&& (worth(next.params[i]) - worth(at.params[i])) * root(variance(f)) == (scalar(lr)
                * unit) * dot(f.map_values(|v: real| v - m), x)
            &&& number(share) * ((accumulate * chunk) as real) == real_sum(answers(chunks, number))
        }),
{
    let batch = (accumulate * chunk) as usize;
    epoch_gradients_are_centred::<P, F, EV, ZE, AD, PL, OV, DE, TI, MI, FA>(
        ops,
        at.params,
        chunks,
        fits,
        noise,
        i,
        worth,
        number,
        root,
        unit,
        batch,
    );
    answers_add_up::<P, F, EV, ZE, AD, PL, OV, DE, TI, MI, FA>(
        ops,
        at.params,
        chunks,
        chunks.len(),
        number,
    );
    assert(answers(chunks, number).take(chunks.len() as int) =~= answers(chunks, number));
    let sums = ops.sums_after::<P>(at.params, chunks, chunks.len());
    assert(number(value2::<F, usize, F, OV>(ops.over, sums.correct, batch)) * (batch as real)
        == number(sums.correct));
    let g = worth(ops.gradients::<P>(sums, batch)[i]);
    let f = chained(fits, chunks.len());
    let (l, dev) = (scalar(lr), root(variance(f)));
    let m = real_mean(f);
    let inner = dot(f.map_values(|v: real| v - m), chained(noise, chunks.len()));
    assert((-(l * g)) * dev == (l * unit) * inner) by (nonlinear_arith)
        requires
            g * dev == -unit * inner,
    ;
}

/// Epochs carry the optimizer on: an epoch of Adam or AdamW counts one step from the steps so far,
/// and its moments are what the decays make of the moments so far and the epoch's gradients.
pub proof fn epochs_carry_the_optimizer_on<
    P,
    F,
    EV,
    ZE: Fn(&P) -> P,
    AD: Fn(&P, &P) -> P,
    PL: Fn(&F, &F) -> F,
    OV: Fn(&F, &usize) -> F,
    DE: Fn(&F, &F) -> F,
    TI: Fn(&P, &F) -> P,
    MI: Fn(&P, &P) -> P,
    FA: Fn(&F, &usize) -> F,
    S,
    O1: Fn(&P, &P, &S) -> P,
    O2: Fn(&P, &P, &S) -> P,
    O3: Fn(&P, &P, &S) -> P,
    O4: Fn(&P, &P, &P, &AdamRule<S>) -> P,
    O5: Fn(&Vec<P>, &S) -> Vec<P>,
>(
    ops: EpochOps<F, EV, ZE, AD, PL, OV, DE, TI, MI, FA>,
    solver_ops: SolverOps<O1, O2, O3, O4, O5>,
    adam: AdamSettings<S>,
    at: Stepped<P>,
    chunks: Seq<ChunkSums<P, F>>,
    accumulate: usize,
    chunk: usize,
    i: int,
)
    requires
        i32::MIN <= at.step < i32::MAX,
        0 <= i < at.params.len() <= at.moments.len(),
        accumulate <= chunks.len(),
    ensures
        ({
            let next = ops.epoch_after::<P, S, O1, O2, O3, O4, O5>(
                solver_ops,
                adam.solver(),
                at,
                chunks,
                accumulate,
                chunk,
            ).0;
            let sums = ops.sums_after::<P>(at.params, chunks, accumulate as nat);
            let grad = ops.gradients::<P>(sums, (accumulate * chunk) as usize)[i];
            &&& next.step == at.step + 1
            &&& next.params.len() == at.params.len()
            &&& next.moments.len() == at.moments.len()
            &&& next.moments[i].m == value3::<P, P, S, P, O2>(
                solver_ops.first,
                at.moments[i].m,
                grad,
                adam.beta1,
            )
            &&& next.moments[i].v == value3::<P, P, S, P, O3>(
                solver_ops.second,
                at.moments[i].v,
                grad,
                adam.beta2,
            )
            &&& next.params[i] == value4::<P, P, P, AdamRule<S>, P, O4>(
                solver_ops.adam,
                at.params[i],
                next.moments[i].m,
                next.moments[i].v,
                AdamRule {
                    step: (at.step + 1) as i32,
                    lr: adam.lr,
                    beta1: adam.beta1,
                    beta2: adam.beta2,
                    eps: adam.eps,
                    weight_decay: adam.weight_decay,
                },
            )
        }),
{
    sums_keep_their_number::<P, F, EV, ZE, AD, PL, OV, DE, TI, MI, FA>(
        ops,
        at.params,
        chunks,
        accumulate as nat,
    );
}

proof fn sums_keep_their_number<
    P,
    F,
    EV,
    ZE: Fn(&P) -> P,
    AD: Fn(&P, &P) -> P,
    PL: Fn(&F, &F) -> F,
    OV: Fn(&F, &usize) -> F,
    DE: Fn(&F, &F) -> F,
    TI: Fn(&P, &F) -> P,
    MI: Fn(&P, &P) -> P,
    FA: Fn(&F, &usize) -> F,
>(
    ops: EpochOps<F, EV, ZE, AD, PL, OV, DE, TI, MI, FA>,
    params: Seq<P>,
    chunks: Seq<ChunkSums<P, F>>,
    n: nat,
)
    ensures
        ops.sums_after::<P>(params, chunks, n).raw.len() == params.len(),
        ops.sums_after::<P>(params, chunks, n).ones.len() == params.len(),
    decreases n,
{
    if n > 0 {
        sums_keep_their_number::<P, F, EV, ZE, AD, PL, OV, DE, TI, MI, FA>(
            ops,
            params,
            chunks,
            (n - 1) as nat,
        );
    }
}

/// The chunks of an epoch are the batch: the first starts at its first sample, each starts where
/// the one before it ends, the last ends at its last sample, and all have one size.
pub proof fn chunks_make_up_the_epoch(epoch: usize, chunk: usize, accumulate: usize, k: int)
    requires
        0 <= k < accumulate,
        accumulate * chunk <= usize::MAX,
    ensures
        chunk_range(epoch, chunk as int, k).epoch == epoch,
        chunk_range(epoch, chunk as int, 0).lo == 0,
        chunk_range(epoch, chunk as int, k).hi == chunk_range(epoch, chunk as int, k).lo + chunk,
        k + 1 < accumulate ==> chunk_range(epoch, chunk as int, k + 1).lo == chunk_range(
            epoch,
            chunk as int,
            k,
        ).hi,
        chunk_range(epoch, chunk as int, accumulate - 1).hi == accumulate * chunk,
{
    let (c, n) = (chunk as int, accumulate as int);
    assert(0 <= k * c && (k + 1) * c == k * c + c && (k + 1) * c <= n * c && 0 * c == 0)
        by (nonlinear_arith)
        requires
            0 <= k < n,
            0 <= c,
    ;
}

} // verus!
