//! What follows from exact arithmetic.
//!
//! Where the arithmetic that is handed in adds the samples of a chunk one by one,
//! accumulation over chunks is the update on the whole batch. Where it is exact in
//! some coordinate of the parameters, the gradient of normalised scores follows
//! from sums over raw ones.

use vstd::arithmetic::div_mod::*;
use vstd::prelude::*;

use crate::accumulate::{
    cache_changes_nothing, cache_is_fresh, chunks_partition_batch, AccumulateOps, Batch,
};
use crate::lora_cache::{dense_batch, paired_len, LoraSource};
use crate::noise::IterInfo;
use crate::noiser::{
    with_noise, FrozenNoiserParams, Noise, NoiseForm, NoiseOps, NoiseView, NoiserKind,
};
use crate::ops::{held, seen4, value, value1, value2, value3};
use crate::perturb::{dense_noise, lora_a, lora_b, lora_fits};
use crate::solver::{AdamRule, MomentState, Solver, SolverOps};
use crate::update::{gradient, gradients_of, terms_of, AffineOps, GradientOps};

verus! {

// ---------------------------------------------------------------------------
// Exact arithmetic
// ---------------------------------------------------------------------------
/// Whether the gradient of single samples is exact in a coordinate: zero is worth nothing, and a
/// sample adds what its noise is worth times what its score is worth.
pub open spec fn adds_exactly<T, P, Z, A, SA, SB, E, G>(
    arith: GradientOps<Z, A, SA, SB, E, G>,
    shape: [usize; 2],
    worth: spec_fn(P) -> int,
    noise_worth: spec_fn(NoiseView<T>) -> int,
    score_worth: spec_fn(T) -> int,
) -> bool where Z: Fn(&[usize; 2]) -> P, A: Fn(&P, &Noise<T>, &T) -> P {
    &&& worth(value1::<[usize; 2], P, Z>(arith.zeros, shape)) == 0
    &&& forall|acc: P, noise: NoiseView<T>, score: T|
        worth(#[trigger] with_noise::<P, T, T, P, A>(arith.add, acc, noise, score)) == worth(
            acc,
        ) + noise_worth(noise) * score_worth(score)
}

/// The gradient of normalised scores from sums over raw ones: where each normalised score times
/// the deviation is the raw score minus the mean, the weighted sum of the normalised scores times
/// the deviation is the weighted sum of the raw scores minus the mean times the plain sum.
pub proof fn normalised_sum_from_raw_sums<T, P, Z, A, SA, SB, E, G>(
    arith: GradientOps<Z, A, SA, SB, E, G>,
    shape: [usize; 2],
    noises: Seq<NoiseView<T>>,
    raw: Seq<T>,
    ones: Seq<T>,
    conv: Seq<T>,
    n: nat,
    mean: int,
    deviation: int,
    worth: spec_fn(P) -> int,
    noise_worth: spec_fn(NoiseView<T>) -> int,
    score_worth: spec_fn(T) -> int,
) where Z: Fn(&[usize; 2]) -> P, A: Fn(&P, &Noise<T>, &T) -> P
    requires
        adds_exactly::<T, P, Z, A, SA, SB, E, G>(arith, shape, worth, noise_worth, score_worth),
        forall|j: int|
            0 <= j < n ==> deviation * score_worth(#[trigger] conv[j]) == score_worth(raw[j])
                - mean,
        forall|j: int| 0 <= j < n ==> score_worth(#[trigger] ones[j]) == 1,
    ensures
        deviation * worth(arith.weighted_sum::<T, P>(shape, noises, conv, n)) == worth(
            arith.weighted_sum::<T, P>(shape, noises, raw, n),
        ) - mean * worth(arith.weighted_sum::<T, P>(shape, noises, ones, n)),
    decreases n,
{
    if n == 0 {
        assert(deviation * 0 == 0 && mean * 0 == 0) by (nonlinear_arith);
    } else {
        let m = (n - 1) as nat;
        normalised_sum_from_raw_sums::<T, P, Z, A, SA, SB, E, G>(
            arith,
            shape,
            noises,
            raw,
            ones,
            conv,
            m,
            mean,
            deviation,
            worth,
            noise_worth,
            score_worth,
        );
        let w = noise_worth(noises[n - 1]);
        let (r, c) = (score_worth(raw[n - 1]), score_worth(conv[n - 1]));
        let (sr, so, sc) = (
            worth(arith.weighted_sum::<T, P>(shape, noises, raw, m)),
            worth(arith.weighted_sum::<T, P>(shape, noises, ones, m)),
            worth(arith.weighted_sum::<T, P>(shape, noises, conv, m)),
        );
        assert(score_worth(ones[n - 1]) == 1);
        assert(deviation * (sc + w * c) == (sr + w * r) - mean * (so + w * 1)) by (nonlinear_arith)
            requires
                deviation * sc == sr - mean * so,
                deviation * c == r - mean,
        ;
    }
}

// ---------------------------------------------------------------------------
// Samples one by one
// ---------------------------------------------------------------------------
/// `start` after `n` samples, each a row of noise with its score.
pub open spec fn folded<T, P>(
    one: spec_fn(P, Seq<T>, T) -> P,
    start: P,
    row: spec_fn(int) -> Seq<T>,
    score: spec_fn(int) -> T,
    n: nat,
) -> P
    decreases n,
{
    if n == 0 {
        start
    } else {
        one(folded(one, start, row, score, (n - 1) as nat), row(n - 1), score(n - 1))
    }
}

/// Samples `lo` to `lo + n` continue the first `lo`.
proof fn folded_joins<T, P>(
    one: spec_fn(P, Seq<T>, T) -> P,
    start: P,
    row: spec_fn(int) -> Seq<T>,
    score: spec_fn(int) -> T,
    next_row: spec_fn(int) -> Seq<T>,
    next_score: spec_fn(int) -> T,
    lo: nat,
    n: nat,
)
    requires
        forall|j: int| 0 <= j < n ==> #[trigger] next_row(j) == row(lo + j),
        forall|j: int| 0 <= j < n ==> #[trigger] next_score(j) == score(lo + j),
    ensures
        folded(one, folded(one, start, row, score, lo), next_row, next_score, n) == folded(
            one,
            start,
            row,
            score,
            lo + n,
        ),
    decreases n,
{
    if n > 0 {
        folded_joins(one, start, row, score, next_row, next_score, lo, (n - 1) as nat);
        assert(next_row(n - 1) == row(lo + (n - 1)));
        assert(next_score(n - 1) == score(lo + (n - 1)));
    }
}

/// The factors that a row of low-rank noise holds: `B` in front, then `A`, which `scale` scales.
pub open spec fn factors_of<T, B: Fn(T) -> T>(row: Seq<T>, split: int, scale: B) -> NoiseView<T> {
    NoiseView::Lora(
        row.skip(split).map_values(|x: T| value::<T, T, B>(scale, x)),
        row.take(split),
    )
}

/// A sum plus a row of low-rank noise times a score.
pub open spec fn one_lora<
    T,
    P,
    B: Fn(T) -> T,
    Z,
    A: Fn(&P, &Noise<T>, &T) -> P,
    SA,
    SB,
    E,
    G,
>(arith: GradientOps<Z, A, SA, SB, E, G>, split: int, scale: B) -> spec_fn(P, Seq<T>, T) -> P {
    |acc: P, row: Seq<T>, score: T|
        with_noise::<P, T, T, P, A>(arith.add, acc, factors_of(row, split, scale), score)
}

/// A sum plus a row of dense noise times a score.
pub open spec fn one_dense<T, P, Z, A: Fn(&P, &Noise<T>, &T) -> P, SA, SB, E, G>(
    arith: GradientOps<Z, A, SA, SB, E, G>,
) -> spec_fn(P, Seq<T>, T) -> P {
    |acc: P, row: Seq<T>, score: T|
        with_noise::<P, T, T, P, A>(arith.add, acc, NoiseView::Dense(row), score)
}

/// Whether adding a chunk that a list holds is adding its samples one by one.
pub open spec fn adds_one_by_one<T, P, F: Fn(&P, &Vec<T>, &Vec<T>, &[usize; 2]) -> P>(
    add: F,
    one: spec_fn(P, Seq<T>, T) -> P,
    shape: [usize; 2],
    len: int,
) -> bool {
    forall|acc: P, flat: Seq<T>, scores: Seq<T>|
        held(flat) && held(scores) && flat.len() == scores.len() * len ==> #[trigger] seen4::<
            P,
            T,
            T,
            [usize; 2],
            P,
            F,
        >(add, acc, flat, scores, shape) == folded(
            one,
            acc,
            |j: int| flat.subrange(j * len, j * len + len),
            |j: int| scores[j],
            scores.len(),
        )
}

/// Whether accumulation and the update on a whole batch of `n` samples compute alike on parameters
/// of a shape: both make noise with the same functions, a chunk is added as its samples are one by
/// one, and one scale in the end is the mean scaled back.
pub open spec fn compute_alike<
    T: Copy,
    P,
    N: Fn((u32, u32)) -> T,
    SL: Fn((i32, T)) -> T,
    SD: Fn((i32, T)) -> T,
    Z: Fn(&[usize; 2]) -> P,
    AL: Fn(&P, &Vec<T>, &Vec<T>, &[usize; 2]) -> P,
    AD: Fn(&P, &Vec<T>, &Vec<T>, &[usize; 2]) -> P,
    C: Fn(&P, &usize) -> P,
    B: Fn(T) -> T,
    H: Fn(T) -> T,
    Z2: Fn(&[usize; 2]) -> P,
    A: Fn(&P, &Noise<T>, &T) -> P,
    SA: Fn(T) -> T,
    SB: Fn(T) -> T,
    E: Fn(&P, &(usize, usize, usize)) -> P,
    G: Fn(&P, &usize) -> P,
>(
    ops: AccumulateOps<N, SL, SD, Z, AL, AD, C>,
    draws: NoiseOps<N, SD, SL, B, H>,
    arith: GradientOps<Z2, A, SA, SB, E, G>,
    shape: [usize; 2],
    rank: usize,
    n: usize,
) -> bool {
    let (a, b) = (shape@[0] as int, shape@[1] as int);
    &&& draws.normal == ops.normal
    &&& draws.signed == ops.signed
    &&& draws.scaled == ops.scaled
    &&& value1::<[usize; 2], P, Z>(ops.zeros, shape) == value1::<[usize; 2], P, Z2>(
        arith.zeros,
        shape,
    )
    &&& adds_one_by_one::<T, P, AL>(
        ops.add_lora,
        one_lora::<T, P, B, Z2, A, SA, SB, E, G>(arith, b * rank, draws.scale),
        shape,
        (a + b) * rank,
    )
    &&& adds_one_by_one::<T, P, AD>(
        ops.add_dense,
        one_dense::<T, P, Z2, A, SA, SB, E, G>(arith),
        shape,
        a * b,
    )
    &&& forall|acc: P| #[trigger]
        value2::<P, usize, P, C>(ops.rescale, acc, n) == value2::<P, usize, P, G>(
            arith.finish,
            value2::<P, (usize, usize, usize), P, E>(arith.mean, acc, (n, 1, 1)),
            n,
        )
    &&& value2::<P, usize, P, C>(
        ops.rescale,
        value1::<[usize; 2], P, Z>(ops.zeros, shape),
        n,
    ) == value2::<P, usize, P, G>(
        arith.finish,
        value1::<[usize; 2], P, Z2>(arith.zeros, shape),
        n,
    )
}

// ---------------------------------------------------------------------------
// Rows
// ---------------------------------------------------------------------------
/// The row of a thread stands at its place among the rows of several threads.
proof fn row_of_noise<T, F: Fn((u32, u32)) -> T, S: Fn((i32, T)) -> T>(
    source: LoraSource,
    normal: F,
    signed: S,
    tids: Seq<i32>,
    j: int,
)
    requires
        0 <= j < tids.len(),
    ensures
        ({
            let len = source.row_len();
            source.noise::<T, F, S>(normal, signed, tids).subrange(j * len, j * len + len)
                == source.noise::<T, F, S>(normal, signed, seq![tids[j]])
        }),
{
    let len = source.row_len();
    assert(0 <= len) by (nonlinear_arith)
        requires
            len == (source.a + source.b) * source.rank,
    ;
    row_bounds(j, tids.len() as int, len);
    let whole = source.noise::<T, F, S>(normal, signed, tids);
    let single = source.noise::<T, F, S>(normal, signed, seq![tids[j]]);
    assert forall|q: int| 0 <= q < len implies whole.subrange(j * len, j * len + len)[q]
        == single[q] by {
        lemma_fundamental_div_mod_converse(j * len + q, len, j, q);
        lemma_fundamental_div_mod_converse(q, len, 0, q);
    }
    assert(whole.subrange(j * len, j * len + len) =~= single);
}

proof fn row_bounds(j: int, n: int, len: int)
    requires
        0 <= j < n,
        0 <= len,
    ensures
        0 <= j * len,
        j * len + len <= n * len,
        1 * len == len,
{
    assert(0 <= j * len && j * len + len <= n * len && 1 * len == len) by (nonlinear_arith)
        requires
            0 <= j < n,
            0 <= len,
    ;
}

/// The dense noise of a thread stands at its place among that of several threads.
proof fn row_of_dense<T, N: Fn((u32, u32)) -> T, S: Fn((i32, T)) -> T>(
    normal: N,
    scaled: S,
    key: u64,
    tids: Seq<i32>,
    epoch: i32,
    noise_reuse: i32,
    elems: int,
    j: int,
)
    requires
        0 <= j < tids.len(),
        0 <= elems,
    ensures
        dense_batch::<T, N, S>(normal, scaled, key, tids, epoch, noise_reuse, elems).subrange(
            j * elems,
            j * elems + elems,
        ) == dense_batch::<T, N, S>(
            normal,
            scaled,
            key,
            seq![tids[j]],
            epoch,
            noise_reuse,
            elems,
        ),
{
    row_bounds(j, tids.len() as int, elems);
    let whole = dense_batch::<T, N, S>(normal, scaled, key, tids, epoch, noise_reuse, elems);
    let single = dense_batch::<T, N, S>(
        normal,
        scaled,
        key,
        seq![tids[j]],
        epoch,
        noise_reuse,
        elems,
    );
    assert forall|q: int| 0 <= q < elems implies whole.subrange(j * elems, j * elems + elems)[q]
        == single[q] by {
        lemma_fundamental_div_mod_converse(j * elems + q, elems, j, q);
        lemma_fundamental_div_mod_converse(q, elems, 0, q);
    }
    assert(whole.subrange(j * elems, j * elems + elems) =~= single);
}

/// The low-rank noise that a single update draws for a thread holds the row of that thread.
proof fn lora_draw_is_the_row<
    T: Copy,
    N: Fn((u32, u32)) -> T,
    SD: Fn((i32, T)) -> T,
    SL: Fn((i32, T)) -> T,
    B: Fn(T) -> T,
    H: Fn(T) -> T,
>(
    draws: NoiseOps<N, SD, SL, B, H>,
    source: LoraSource,
    shape: [usize; 2],
    thread_id: i32,
)
    requires
        lora_fits(source.a, source.b, source.rank),
        source.a == shape@[0],
        source.b == shape@[1],
    ensures
        draws.drawn::<T>(
            NoiseForm::Lora,
            true,
            source.key,
            shape,
            IterInfo { epoch: source.epoch, thread_id },
            source.noise_reuse,
            source.rank,
        ) == factors_of(
            source.noise::<T, N, SL>(draws.normal, draws.signed, seq![thread_id]),
            source.b * source.rank,
            draws.scale,
        ),
{
    let (a, b, rank) = (source.a as nat, source.b as nat, source.rank as nat);
    let info = IterInfo { epoch: source.epoch, thread_id };
    let row = source.noise::<T, N, SL>(draws.normal, draws.signed, seq![thread_id]);
    let len = source.row_len();
    crate::perturb::lora_sizes(source.a, source.b, source.rank);
    assert(1 * len == len);
    assert forall|k: int| 0 <= k < len implies row[k] == source.element::<T, N, SL>(
        draws.normal,
        draws.signed,
        thread_id,
        k,
    ) by {
        lemma_fundamental_div_mod_converse(k, len, 0, k);
    }
    let first = lora_a::<T, N, SL, B, H>(
        draws.normal,
        draws.signed,
        draws.scale,
        draws.hushed,
        source.key,
        info,
        a,
        b,
        rank,
        source.noise_reuse,
        true,
    );
    let second = lora_b::<T, N, H>(
        draws.normal,
        draws.hushed,
        source.key,
        info,
        b,
        rank,
        source.noise_reuse,
        true,
    );
    assert(first =~= row.skip(source.b * source.rank).map_values(
        |x: T| value::<T, T, B>(draws.scale, x),
    ));
    assert(second =~= row.take(source.b * source.rank));
}

/// The dense noise that a single update draws for a thread is the row of that thread.
proof fn dense_draw_is_the_row<
    T: Copy,
    N: Fn((u32, u32)) -> T,
    SD: Fn((i32, T)) -> T,
    H: Fn(T) -> T,
>(normal: N, scaled: SD, hushed: H, key: u64, info: IterInfo, noise_reuse: i32, elems: nat)
    ensures
        dense_noise::<T, N, SD, H>(normal, scaled, hushed, key, info, elems, noise_reuse, true)
            == dense_batch::<T, N, SD>(
            normal,
            scaled,
            key,
            seq![info.thread_id],
            info.epoch,
            noise_reuse,
            elems as int,
        ),
{
    let row = dense_batch::<T, N, SD>(
        normal,
        scaled,
        key,
        seq![info.thread_id],
        info.epoch,
        noise_reuse,
        elems as int,
    );
    let single = dense_noise::<T, N, SD, H>(
        normal,
        scaled,
        hushed,
        key,
        info,
        elems,
        noise_reuse,
        true,
    );
    assert(1 * elems == elems);
    assert forall|k: int| 0 <= k < elems implies single[k] == row[k] by {
        lemma_fundamental_div_mod_converse(k, elems as int, 0, k);
    }
    assert(single =~= row);
}

// ---------------------------------------------------------------------------
// Accumulation
// ---------------------------------------------------------------------------
impl<'a, T: Copy> Batch<'a, T> {
    /// The row of noise of parameter `i` and sample `j`.
    pub open spec fn row<N: Fn((u32, u32)) -> T, SL: Fn((i32, T)) -> T, SD: Fn((i32, T)) -> T>(
        &self,
        normal: N,
        signed: SL,
        scaled: SD,
        i: int,
        j: int,
    ) -> Seq<T> {
        if self.class_of(i) == 1 {
            self.source(i).noise::<T, N, SL>(normal, signed, seq![self.thread_ids@[j]])
        } else {
            dense_batch::<T, N, SD>(
                normal,
                scaled,
                self.base_keys@[i],
                seq![self.thread_ids@[j]],
                self.epoch,
                self.noise_reuse,
                self.shapes@[i]@[0] * self.shapes@[i]@[1],
            )
        }
    }

    /// The iterations of the samples.
    pub open spec fn infos(&self) -> Seq<IterInfo> {
        Seq::new(
            (self.accumulate * self.chunk) as nat,
            |j: int| IterInfo { epoch: self.epoch, thread_id: self.thread_ids@[j] },
        )
    }
}

/// What accumulation adds to a sum for one sample of a parameter.
pub open spec fn one_sample<
    T: Copy,
    P,
    B: Fn(T) -> T,
    Z,
    A: Fn(&P, &Noise<T>, &T) -> P,
    SA,
    SB,
    E,
    G,
>(
    arith: GradientOps<Z, A, SA, SB, E, G>,
    batch: &Batch<T>,
    i: int,
    scale: B,
) -> spec_fn(P, Seq<T>, T) -> P {
    if batch.class_of(i) == 1 {
        one_lora::<T, P, B, Z, A, SA, SB, E, G>(arith, batch.shapes@[i]@[1] * batch.rank, scale)
    } else {
        one_dense::<T, P, Z, A, SA, SB, E, G>(arith)
    }
}

/// The sum of a parameter after `k` chunks is that of their samples, one by one.
#[verifier::spinoff_prover]
proof fn sums_are_folded<
    T: Copy,
    P,
    N: Fn((u32, u32)) -> T,
    SL: Fn((i32, T)) -> T,
    SD: Fn((i32, T)) -> T,
    Z: Fn(&[usize; 2]) -> P,
    AL: Fn(&P, &Vec<T>, &Vec<T>, &[usize; 2]) -> P,
    AD: Fn(&P, &Vec<T>, &Vec<T>, &[usize; 2]) -> P,
    C: Fn(&P, &usize) -> P,
    B: Fn(T) -> T,
    H: Fn(T) -> T,
    Z2: Fn(&[usize; 2]) -> P,
    A: Fn(&P, &Noise<T>, &T) -> P,
    SA: Fn(T) -> T,
    SB: Fn(T) -> T,
    E: Fn(&P, &(usize, usize, usize)) -> P,
    G: Fn(&P, &usize) -> P,
>(
    ops: AccumulateOps<N, SL, SD, Z, AL, AD, C>,
    draws: NoiseOps<N, SD, SL, B, H>,
    arith: GradientOps<Z2, A, SA, SB, E, G>,
    batch: &Batch<T>,
    i: int,
    k: nat,
)
    requires
        batch.valid(),
        0 <= i < batch.shapes@.len(),
        batch.class_of(i) == 0 || batch.class_of(i) == 1,
        batch.chunks_held::<N, SL, SD>(ops.normal, ops.signed, ops.scaled),
        cache_is_fresh::<T, N, SL>(ops.normal, ops.signed, batch),
        compute_alike::<T, P, N, SL, SD, Z, AL, AD, C, B, H, Z2, A, SA, SB, E, G>(
            ops,
            draws,
            arith,
            batch.shapes@[i],
            batch.rank,
            (batch.accumulate * batch.chunk) as usize,
        ),
        k <= batch.accumulate,
    ensures
        ops.sum_after::<T, P>(batch, i, k) == folded(
            one_sample::<T, P, B, Z2, A, SA, SB, E, G>(arith, batch, i, draws.scale),
            value1::<[usize; 2], P, Z>(ops.zeros, batch.shapes@[i]),
            |j: int| batch.row::<N, SL, SD>(ops.normal, ops.signed, ops.scaled, i, j),
            |j: int| batch.scores@[j],
            (k * batch.chunk) as nat,
        ),
    decreases k,
{
    let one = one_sample::<T, P, B, Z2, A, SA, SB, E, G>(arith, batch, i, draws.scale);
    let zero = value1::<[usize; 2], P, Z>(ops.zeros, batch.shapes@[i]);
    let row = |j: int| batch.row::<N, SL, SD>(ops.normal, ops.signed, ops.scaled, i, j);
    let score = |j: int| batch.scores@[j];
    let chunk = batch.chunk as int;
    if k == 0 {
        assert(0 * chunk == 0);
    } else {
        let q = (k - 1) as nat;
        sums_are_folded::<T, P, N, SL, SD, Z, AL, AD, C, B, H, Z2, A, SA, SB, E, G>(
            ops,
            draws,
            arith,
            batch,
            i,
            q,
        );
        chunks_partition_batch(q as int, chunk, batch.accumulate as int);
        let lo = q * chunk;
        let scores = batch.chunk_scores(q as int);
        let tids = batch.chunk_tids(q as int);
        let (a, b) = (batch.shapes@[i]@[0] as int, batch.shapes@[i]@[1] as int);
        let (flat, len) = if batch.class_of(i) == 1 {
            (
                batch.lora_noise::<N, SL>(ops.normal, ops.signed, i, q as int),
                (a + b) * batch.rank,
            )
        } else {
            (batch.dense_noise::<N, SD>(ops.normal, ops.scaled, i, q as int), a * b)
        };
        assert(0 <= len) by {
            assert(0 <= (a + b) * batch.rank && 0 <= a * b) by (nonlinear_arith)
                requires
                    0 <= a,
                    0 <= b,
                    0 <= batch.rank,
            ;
        }
        if batch.class_of(i) == 1 {
            cache_changes_nothing::<T, N, SL>(ops.normal, ops.signed, batch, i, q as int);
        }
        let next_row = |j: int| flat.subrange(j * len, j * len + len);
        let next_score = |j: int| scores[j];
        assert forall|j: int| 0 <= j < chunk implies #[trigger] next_row(j) == row(lo + j) by {
            assert(tids[j] == batch.thread_ids@[lo + j]);
            if batch.class_of(i) == 1 {
                row_of_noise::<T, N, SL>(batch.source(i), ops.normal, ops.signed, tids, j);
            } else {
                row_of_dense::<T, N, SD>(
                    ops.normal,
                    ops.scaled,
                    batch.base_keys@[i],
                    tids,
                    batch.epoch,
                    batch.noise_reuse,
                    len,
                    j,
                );
            }
        }
        assert(batch.chunk_held::<N, SL, SD>(ops.normal, ops.signed, ops.scaled, i, q as int));
        assert(0 <= chunk * len) by (nonlinear_arith)
            requires
                0 <= chunk,
                0 <= len,
        ;
        assert(flat.len() == scores.len() * len);
        folded_joins(one, zero, row, score, next_row, next_score, lo as nat, chunk as nat);
    }
}

/// The weighted sum over a batch is that of its samples, one by one.
proof fn weighted_sum_is_folded<
    T,
    P,
    Z: Fn(&[usize; 2]) -> P,
    A: Fn(&P, &Noise<T>, &T) -> P,
    SA,
    SB,
    E,
    G,
>(
    arith: GradientOps<Z, A, SA, SB, E, G>,
    shape: [usize; 2],
    terms: Seq<NoiseView<T>>,
    scores: Seq<T>,
    one: spec_fn(P, Seq<T>, T) -> P,
    row: spec_fn(int) -> Seq<T>,
    score: spec_fn(int) -> T,
    n: nat,
)
    requires
        forall|acc: P, j: int|
            0 <= j < n ==> with_noise::<P, T, T, P, A>(arith.add, acc, terms[j], scores[j])
                == #[trigger] one(acc, row(j), score(j)),
    ensures
        arith.weighted_sum::<T, P>(shape, terms, scores, n) == folded(
            one,
            value1::<[usize; 2], P, Z>(arith.zeros, shape),
            row,
            score,
            n,
        ),
    decreases n,
{
    if n > 0 {
        let m = (n - 1) as nat;
        weighted_sum_is_folded::<T, P, Z, A, SA, SB, E, G>(
            arith,
            shape,
            terms,
            scores,
            one,
            row,
            score,
            m,
        );
        let acc = folded(
            one,
            value1::<[usize; 2], P, Z>(arith.zeros, shape),
            row,
            score,
            m,
        );
        assert(one(acc, row(n - 1), score(n - 1)) == with_noise::<P, T, T, P, A>(
            arith.add,
            acc,
            terms[n - 1],
            scores[n - 1],
        ));
    }
}

/// The accumulated gradient of a parameter is its gradient on the whole batch.
#[verifier::spinoff_prover]
proof fn accumulated_gradient_is_the_gradient<
    T: Copy,
    S,
    P,
    N: Fn((u32, u32)) -> T,
    SL: Fn((i32, T)) -> T,
    SD: Fn((i32, T)) -> T,
    Z: Fn(&[usize; 2]) -> P,
    AL: Fn(&P, &Vec<T>, &Vec<T>, &[usize; 2]) -> P,
    AD: Fn(&P, &Vec<T>, &Vec<T>, &[usize; 2]) -> P,
    C: Fn(&P, &usize) -> P,
    B: Fn(T) -> T,
    H: Fn(T) -> T,
    Z2: Fn(&[usize; 2]) -> P,
    A: Fn(&P, &Noise<T>, &T) -> P,
    SA: Fn(T) -> T,
    SB: Fn(T) -> T,
    E: Fn(&P, &(usize, usize, usize)) -> P,
    G: Fn(&P, &usize) -> P,
>(
    ops: AccumulateOps<N, SL, SD, Z, AL, AD, C>,
    draws: NoiseOps<N, SD, SL, B, H>,
    arith: GradientOps<Z2, A, SA, SB, E, G>,
    frozen: FrozenNoiserParams<S>,
    batch: &Batch<T>,
    i: int,
)
    requires
        batch.valid(),
        0 <= i < batch.shapes@.len(),
        batch.base_keys@.len() >= batch.shapes@.len(),
        batch.es_classes@.len() >= batch.shapes@.len(),
        batch.scores@.len() == batch.accumulate * batch.chunk,
        frozen.noise_reuse == batch.noise_reuse,
        frozen.rank == batch.rank,
        frozen.freeze_nonlora == batch.freeze_nonlora,
        batch.chunks_held::<N, SL, SD>(ops.normal, ops.signed, ops.scaled),
        cache_is_fresh::<T, N, SL>(ops.normal, ops.signed, batch),
        compute_alike::<T, P, N, SL, SD, Z, AL, AD, C, B, H, Z2, A, SA, SB, E, G>(
            ops,
            draws,
            arith,
            batch.shapes@[i],
            batch.rank,
            (batch.accumulate * batch.chunk) as usize,
        ),
    ensures
        ops.accumulated::<T, P>(batch)[i] == gradient::<
            T,
            S,
            P,
            N,
            SD,
            SL,
            B,
            H,
            Z2,
            A,
            SA,
            SB,
            E,
            G,
        >(
            NoiserKind::EggRoll,
            batch.es_classes@[i],
            draws,
            arith,
            frozen,
            batch.shapes@[i],
            batch.base_keys@[i],
            batch.scores@,
            batch.infos(),
        ),
{
    let kind = NoiserKind::EggRoll;
    let shape = batch.shapes@[i];
    let class = batch.es_classes@[i];
    let form = kind.update_form(class, frozen.freeze_nonlora);
    let zero = value1::<[usize; 2], P, Z>(ops.zeros, shape);
    let n = batch.accumulate * batch.chunk;
    if form == NoiseForm::Zero {
        unmoved_sum_is_zero::<T, P, N, SL, SD, Z, AL, AD, C>(
            ops,
            batch,
            i,
            batch.accumulate as nat,
        );
        assert(value2::<P, usize, P, C>(ops.rescale, zero, n as usize) == value2::<P, usize, P, G>(
            arith.finish,
            value1::<[usize; 2], P, Z2>(arith.zeros, shape),
            n as usize,
        ));
    } else {
        let infos = batch.infos();
        let terms = terms_of::<T, S, N, SD, SL, B, H, Z2, A, SA, SB, E, G>(
            kind,
            form,
            draws,
            arith,
            frozen,
            shape,
            batch.base_keys@[i],
            infos,
        );
        let one = one_sample::<T, P, B, Z2, A, SA, SB, E, G>(arith, batch, i, draws.scale);
        let row = |j: int| batch.row::<N, SL, SD>(ops.normal, ops.signed, ops.scaled, i, j);
        let score = |j: int| batch.scores@[j];
        sums_are_folded::<T, P, N, SL, SD, Z, AL, AD, C, B, H, Z2, A, SA, SB, E, G>(
            ops,
            draws,
            arith,
            batch,
            i,
            batch.accumulate as nat,
        );
        assert forall|acc: P, j: int| 0 <= j < n implies with_noise::<P, T, T, P, A>(
            arith.add,
            acc,
            terms[j],
            batch.scores@[j],
        ) == #[trigger] one(acc, row(j), score(j)) by {
            let info = infos[j];
            if class == 1 {
                assert(lora_fits(shape@[0], shape@[1], batch.rank));
                lora_draw_is_the_row::<T, N, SD, SL, B, H>(
                    draws,
                    batch.source(i),
                    shape,
                    info.thread_id,
                );
            } else {
                assert(0 <= shape@[0] * shape@[1]) by (nonlinear_arith);
                dense_draw_is_the_row::<T, N, SD, H>(
                    draws.normal,
                    draws.scaled,
                    draws.hushed,
                    batch.base_keys@[i],
                    info,
                    batch.noise_reuse,
                    (shape@[0] * shape@[1]) as nat,
                );
            }
        }
        weighted_sum_is_folded::<T, P, Z2, A, SA, SB, E, G>(
            arith,
            shape,
            terms,
            batch.scores@,
            one,
            row,
            score,
            infos.len(),
        );
    }
}

/// Nothing is added for a parameter that does not move.
proof fn unmoved_sum_is_zero<
    T: Copy,
    P,
    N: Fn((u32, u32)) -> T,
    SL: Fn((i32, T)) -> T,
    SD: Fn((i32, T)) -> T,
    Z: Fn(&[usize; 2]) -> P,
    AL: Fn(&P, &Vec<T>, &Vec<T>, &[usize; 2]) -> P,
    AD: Fn(&P, &Vec<T>, &Vec<T>, &[usize; 2]) -> P,
    C: Fn(&P, &usize) -> P,
>(ops: AccumulateOps<N, SL, SD, Z, AL, AD, C>, batch: &Batch<T>, i: int, k: nat)
    requires
        batch.class_of(i) != 0,
        batch.class_of(i) != 1,
    ensures
        ops.sum_after::<T, P>(batch, i, k) == value1::<[usize; 2], P, Z>(
            ops.zeros,
            batch.shapes@[i],
        ),
    decreases k,
{
    if k > 0 {
        unmoved_sum_is_zero::<T, P, N, SL, SD, Z, AL, AD, C>(ops, batch, i, (k - 1) as nat);
    }
}

/// Accumulation is the update on the whole batch: on a batch whose samples have the given
/// iterations, with parameters that all have a key and a class, frozen or not, with a cache or
/// without, both take the same optimizer step: to the same parameters, the same step count and the
/// same moments. A step counts once, however many chunks there are.
#[verifier::spinoff_prover]
pub proof fn accumulation_is_do_updates<
    T: Copy,
    S,
    P,
    N: Fn((u32, u32)) -> T,
    SL: Fn((i32, T)) -> T,
    SD: Fn((i32, T)) -> T,
    Z: Fn(&[usize; 2]) -> P,
    AL: Fn(&P, &Vec<T>, &Vec<T>, &[usize; 2]) -> P,
    AD: Fn(&P, &Vec<T>, &Vec<T>, &[usize; 2]) -> P,
    C: Fn(&P, &usize) -> P,
    B: Fn(T) -> T,
    H: Fn(T) -> T,
    Z2: Fn(&[usize; 2]) -> P,
    A: Fn(&P, &Noise<T>, &T) -> P,
    SA: Fn(T) -> T,
    SB: Fn(T) -> T,
    E: Fn(&P, &(usize, usize, usize)) -> P,
    G: Fn(&P, &usize) -> P,
    O1: Fn(&P, &P, &S) -> P,
    O2: Fn(&P, &P, &S) -> P,
    O3: Fn(&P, &P, &S) -> P,
    O4: Fn(&P, &P, &P, &AdamRule<S>) -> P,
    O5: Fn(&Vec<P>, &S) -> Vec<P>,
>(
    ops: AccumulateOps<N, SL, SD, Z, AL, AD, C>,
    draws: NoiseOps<N, SD, SL, B, H>,
    arith: GradientOps<Z2, A, SA, SB, E, G>,
    solver_ops: SolverOps<O1, O2, O3, O4, O5>,
    frozen: FrozenNoiserParams<S>,
    params: Seq<P>,
    batch: &Batch<T>,
    step: i32,
    moments: Seq<MomentState<P>>,
)
    requires
        batch.valid(),
        batch.shapes@.len() == params.len(),
        batch.base_keys@.len() >= params.len(),
        batch.es_classes@.len() >= params.len(),
        batch.scores@.len() == batch.accumulate * batch.chunk,
        frozen.noise_reuse == batch.noise_reuse,
        frozen.rank == batch.rank,
        frozen.freeze_nonlora == batch.freeze_nonlora,
        batch.chunks_held::<N, SL, SD>(ops.normal, ops.signed, ops.scaled),
        cache_is_fresh::<T, N, SL>(ops.normal, ops.signed, batch),
        forall|i: int|
            0 <= i < batch.shapes@.len() ==> compute_alike::<
                T,
                P,
                N,
                SL,
                SD,
                Z,
                AL,
                AD,
                C,
                B,
                H,
                Z2,
                A,
                SA,
                SB,
                E,
                G,
            >(
                ops,
                draws,
                arith,
                #[trigger] batch.shapes@[i],
                batch.rank,
                (batch.accumulate * batch.chunk) as usize,
            ),
        frozen.solver.keeps_moments() ==> step < i32::MAX,
    ensures
        ({
            let whole = solver_ops.step::<P, S>(
                frozen.solver,
                params,
                gradients_of::<T, S, P, N, SD, SL, B, H, Z2, A, SA, SB, E, G>(
                    NoiserKind::EggRoll,
                    draws,
                    arith,
                    frozen,
                    batch.shapes@,
                    batch.base_keys@,
                    batch.es_classes@,
                    batch.scores@,
                    batch.infos(),
                ),
                step as int,
                moments,
            );
            let chunked = solver_ops.step::<P, S>(
                frozen.solver,
                params,
                ops.accumulated::<T, P>(batch),
                step as int,
                moments,
            );
            &&& chunked == whole
            &&& chunked.step == (if frozen.solver.keeps_moments() {
                step + 1
            } else {
                step as int
            })
        }),
{
    let grads = gradients_of::<T, S, P, N, SD, SL, B, H, Z2, A, SA, SB, E, G>(
        NoiserKind::EggRoll,
        draws,
        arith,
        frozen,
        batch.shapes@,
        batch.base_keys@,
        batch.es_classes@,
        batch.scores@,
        batch.infos(),
    );
    assert(paired_len(batch.shapes@.len(), batch.base_keys@.len(), batch.es_classes@.len())
        == params.len());
    assert forall|i: int| 0 <= i < params.len() implies ops.accumulated::<T, P>(batch)[i]
        == grads[i] by {
        accumulated_gradient_is_the_gradient::<
            T,
            S,
            P,
            N,
            SL,
            SD,
            Z,
            AL,
            AD,
            C,
            B,
            H,
            Z2,
            A,
            SA,
            SB,
            E,
            G,
        >(
            ops,
            draws,
            arith,
            frozen,
            batch,
            i,
        );
    }
    assert(ops.accumulated::<T, P>(batch) =~= grads);
    solver_ops.one_call_is_one_step::<P, S>(frozen.solver, params, grads, step as int, moments);
}

/// The number of chunks does not matter: two plans of one batch give the same gradients, with a
/// cache or without.
#[verifier::spinoff_prover]
pub proof fn chunking_does_not_matter<
    T: Copy,
    P,
    N: Fn((u32, u32)) -> T,
    SL: Fn((i32, T)) -> T,
    SD: Fn((i32, T)) -> T,
    Z: Fn(&[usize; 2]) -> P,
    AL: Fn(&P, &Vec<T>, &Vec<T>, &[usize; 2]) -> P,
    AD: Fn(&P, &Vec<T>, &Vec<T>, &[usize; 2]) -> P,
    C: Fn(&P, &usize) -> P,
    B: Fn(T) -> T,
    H: Fn(T) -> T,
    Z2: Fn(&[usize; 2]) -> P,
    A: Fn(&P, &Noise<T>, &T) -> P,
    SA: Fn(T) -> T,
    SB: Fn(T) -> T,
    E: Fn(&P, &(usize, usize, usize)) -> P,
    G: Fn(&P, &usize) -> P,
>(
    ops: AccumulateOps<N, SL, SD, Z, AL, AD, C>,
    draws: NoiseOps<N, SD, SL, B, H>,
    arith: GradientOps<Z2, A, SA, SB, E, G>,
    one: &Batch<T>,
    other: &Batch<T>,
)
    requires
        one.valid(),
        other.valid(),
        one.shapes == other.shapes,
        one.base_keys == other.base_keys,
        one.es_classes == other.es_classes,
        one.scores == other.scores,
        one.thread_ids == other.thread_ids,
        one.epoch == other.epoch,
        one.noise_reuse == other.noise_reuse,
        one.rank == other.rank,
        one.freeze_nonlora == other.freeze_nonlora,
        one.accumulate * one.chunk == other.accumulate * other.chunk,
        one.chunks_held::<N, SL, SD>(ops.normal, ops.signed, ops.scaled),
        other.chunks_held::<N, SL, SD>(ops.normal, ops.signed, ops.scaled),
        cache_is_fresh::<T, N, SL>(ops.normal, ops.signed, one),
        cache_is_fresh::<T, N, SL>(ops.normal, ops.signed, other),
        forall|i: int|
            0 <= i < one.shapes@.len() ==> compute_alike::<
                T,
                P,
                N,
                SL,
                SD,
                Z,
                AL,
                AD,
                C,
                B,
                H,
                Z2,
                A,
                SA,
                SB,
                E,
                G,
            >(
                ops,
                draws,
                arith,
                #[trigger] one.shapes@[i],
                one.rank,
                (one.accumulate * one.chunk) as usize,
            ),
    ensures
        ops.accumulated::<T, P>(one) == ops.accumulated::<T, P>(other),
{
    assert forall|i: int| 0 <= i < one.shapes@.len() implies ops.accumulated::<T, P>(one)[i]
        == ops.accumulated::<T, P>(other)[i] by {
        assert(one.class_of(i) == other.class_of(i));
        if one.class_of(i) == 0 || one.class_of(i) == 1 {
            sums_are_folded::<T, P, N, SL, SD, Z, AL, AD, C, B, H, Z2, A, SA, SB, E, G>(
                ops,
                draws,
                arith,
                one,
                i,
                one.accumulate as nat,
            );
            sums_are_folded::<T, P, N, SL, SD, Z, AL, AD, C, B, H, Z2, A, SA, SB, E, G>(
                ops,
                draws,
                arith,
                other,
                i,
                other.accumulate as nat,
            );
            let row = |j: int| one.row::<N, SL, SD>(ops.normal, ops.signed, ops.scaled, i, j);
            let other_row = |j: int|
                other.row::<N, SL, SD>(ops.normal, ops.signed, ops.scaled, i, j);
            assert forall|j: int| #[trigger] row(j) == other_row(j) by {
                assert(one.source(i) == other.source(i));
            }
            assert(row =~= other_row);
            assert(one_sample::<T, P, B, Z2, A, SA, SB, E, G>(arith, one, i, draws.scale)
                == one_sample::<T, P, B, Z2, A, SA, SB, E, G>(arith, other, i, draws.scale));
        } else {
            unmoved_sum_is_zero::<T, P, N, SL, SD, Z, AL, AD, C>(
                ops,
                one,
                i,
                one.accumulate as nat,
            );
            unmoved_sum_is_zero::<T, P, N, SL, SD, Z, AL, AD, C>(
                ops,
                other,
                i,
                other.accumulate as nat,
            );
        }
    }
    assert(ops.accumulated::<T, P>(one) =~= ops.accumulated::<T, P>(other));
}

/// A frozen parameter stays: where plain gradient descent leaves a parameter on the rescaled zero
/// gradient, a parameter of class zero is what it was after an accumulated update with the flag
/// set.
pub proof fn frozen_parameters_stay<
    T: Copy,
    S,
    P,
    N: Fn((u32, u32)) -> T,
    SL: Fn((i32, T)) -> T,
    SD: Fn((i32, T)) -> T,
    Z: Fn(&[usize; 2]) -> P,
    AL: Fn(&P, &Vec<T>, &Vec<T>, &[usize; 2]) -> P,
    AD: Fn(&P, &Vec<T>, &Vec<T>, &[usize; 2]) -> P,
    C: Fn(&P, &usize) -> P,
    O1: Fn(&P, &P, &S) -> P,
    O2: Fn(&P, &P, &S) -> P,
    O3: Fn(&P, &P, &S) -> P,
    O4: Fn(&P, &P, &P, &AdamRule<S>) -> P,
    O5: Fn(&Vec<P>, &S) -> Vec<P>,
>(
    ops: AccumulateOps<N, SL, SD, Z, AL, AD, C>,
    solver_ops: SolverOps<O1, O2, O3, O4, O5>,
    frozen: FrozenNoiserParams<S>,
    params: Seq<P>,
    batch: &Batch<T>,
    step: int,
    moments: Seq<MomentState<P>>,
    lr: S,
    i: int,
)
    requires
        frozen.solver == (Solver::Sgd { lr }),
        frozen.freeze_nonlora,
        batch.freeze_nonlora == frozen.freeze_nonlora,
        batch.shapes@.len() == params.len(),
        0 <= i < params.len(),
        i < batch.base_keys@.len(),
        i < batch.es_classes@.len(),
        batch.es_classes@[i] == 0,
        value3::<P, P, S, P, O1>(
            solver_ops.sgd,
            params[i],
            value2::<P, usize, P, C>(
                ops.rescale,
                value1::<[usize; 2], P, Z>(ops.zeros, batch.shapes@[i]),
                (batch.accumulate * batch.chunk) as usize,
            ),
            lr,
        ) == params[i],
    ensures
        solver_ops.step::<P, S>(
            frozen.solver,
            params,
            ops.accumulated::<T, P>(batch),
            step,
            moments,
        ).params[i] == params[i],
{
    unmoved_sum_is_zero::<T, P, N, SL, SD, Z, AL, AD, C>(ops, batch, i, batch.accumulate as nat);
}

// ---------------------------------------------------------------------------
// Gradients of normalised scores
// ---------------------------------------------------------------------------
/// The sum of `f(j) * g(j)` for `j` below `n`.
pub open spec fn dotted(f: spec_fn(int) -> int, g: spec_fn(int) -> int, n: nat) -> int
    decreases n,
{
    if n == 0 {
        0
    } else {
        dotted(f, g, (n - 1) as nat) + f(n - 1) * g(n - 1)
    }
}

/// Sums of products follow their second factor.
proof fn dotted_is_affine(
    f: spec_fn(int) -> int,
    conv: spec_fn(int) -> int,
    raw: spec_fn(int) -> int,
    ones: spec_fn(int) -> int,
    n: nat,
    mean: int,
    deviation: int,
)
    requires
        forall|j: int| 0 <= j < n ==> deviation * #[trigger] conv(j) == raw(j) - mean,
        forall|j: int| 0 <= j < n ==> #[trigger] ones(j) == 1,
    ensures
        deviation * dotted(f, conv, n) == dotted(f, raw, n) - mean * dotted(f, ones, n),
    decreases n,
{
    if n == 0 {
        assert(deviation * 0 == 0 && mean * 0 == 0) by (nonlinear_arith);
    } else {
        let m = (n - 1) as nat;
        dotted_is_affine(f, conv, raw, ones, m, mean, deviation);
        let (w, c, r) = (f(n - 1), conv(n - 1), raw(n - 1));
        let (sc, sr, so) = (dotted(f, conv, m), dotted(f, raw, m), dotted(f, ones, m));
        assert(ones(n - 1) == 1);
        assert(deviation * (sc + w * c) == (sr + w * r) - mean * (so + w * 1)) by (nonlinear_arith)
            requires
                deviation * sc == sr - mean * so,
                deviation * c == r - mean,
        ;
    }
}

/// Whether adding a chunk that a list holds is exact in a coordinate: it adds what each of its rows
/// is worth times what its score is worth.
pub open spec fn adds_rows_exactly<T, P, F: Fn(&P, &Vec<T>, &Vec<T>, &[usize; 2]) -> P>(
    add: F,
    shape: [usize; 2],
    len: int,
    worth: spec_fn(P) -> int,
    row_worth: spec_fn(Seq<T>) -> int,
    score_worth: spec_fn(T) -> int,
) -> bool {
    forall|acc: P, flat: Seq<T>, scores: Seq<T>|
        held(flat) && held(scores) && flat.len() == scores.len() * len ==> worth(
            #[trigger] seen4::<P, T, T, [usize; 2], P, F>(add, acc, flat, scores, shape),
        ) == worth(acc) + dotted(
            |j: int| row_worth(flat.subrange(j * len, j * len + len)),
            |j: int| score_worth(scores[j]),
            scores.len(),
        )
}

/// Whether accumulation is exact in a coordinate of parameters of a shape.
pub open spec fn accumulates_exactly<
    T: Copy,
    P,
    N: Fn((u32, u32)) -> T,
    SL: Fn((i32, T)) -> T,
    SD: Fn((i32, T)) -> T,
    Z: Fn(&[usize; 2]) -> P,
    AL: Fn(&P, &Vec<T>, &Vec<T>, &[usize; 2]) -> P,
    AD: Fn(&P, &Vec<T>, &Vec<T>, &[usize; 2]) -> P,
    C: Fn(&P, &usize) -> P,
>(
    ops: AccumulateOps<N, SL, SD, Z, AL, AD, C>,
    shape: [usize; 2],
    rank: usize,
    worth: spec_fn(P) -> int,
    lora_worth: spec_fn(Seq<T>) -> int,
    dense_worth: spec_fn(Seq<T>) -> int,
    score_worth: spec_fn(T) -> int,
) -> bool {
    let (a, b) = (shape@[0] as int, shape@[1] as int);
    &&& worth(value1::<[usize; 2], P, Z>(ops.zeros, shape)) == 0
    &&& adds_rows_exactly::<T, P, AL>(
        ops.add_lora,
        shape,
        (a + b) * rank,
        worth,
        lora_worth,
        score_worth,
    )
    &&& adds_rows_exactly::<T, P, AD>(
        ops.add_dense,
        shape,
        a * b,
        worth,
        dense_worth,
        score_worth,
    )
}

/// Whether two batches differ in their scores alone.
pub open spec fn differ_in_scores<T: Copy>(one: &Batch<T>, other: &Batch<T>) -> bool {
    &&& one.shapes == other.shapes
    &&& one.base_keys == other.base_keys
    &&& one.es_classes == other.es_classes
    &&& one.thread_ids == other.thread_ids
    &&& one.epoch == other.epoch
    &&& one.noise_reuse == other.noise_reuse
    &&& one.rank == other.rank
    &&& one.freeze_nonlora == other.freeze_nonlora
    &&& one.chunk == other.chunk
    &&& one.accumulate == other.accumulate
    &&& one.cache == other.cache
}

/// Whether `conv` holds the scores of `raw` in normalised form, and `ones` holds ones: each
/// normalised score times the deviation is the raw score minus the mean.
pub open spec fn normalises<T: Copy>(
    raw: &Batch<T>,
    ones: &Batch<T>,
    conv: &Batch<T>,
    mean: int,
    deviation: int,
    score_worth: spec_fn(T) -> int,
) -> bool {
    &&& differ_in_scores(conv, raw)
    &&& differ_in_scores(conv, ones)
    &&& forall|j: int|
        0 <= j < conv.accumulate * conv.chunk ==> deviation * score_worth(
            #[trigger] conv.scores@[j],
        ) == score_worth(raw.scores@[j]) - mean
    &&& forall|j: int|
        0 <= j < conv.accumulate * conv.chunk ==> score_worth(#[trigger] ones.scores@[j]) == 1
}

/// Chunk sums of normalised scores follow from those of raw ones: in a coordinate in which the
/// arithmetic is exact, the sum of normalised scores after `k` chunks times the deviation is the
/// sum of raw scores minus the mean times the plain sum.
#[verifier::spinoff_prover]
pub proof fn chunk_sums_are_affine<
    T: Copy,
    P,
    N: Fn((u32, u32)) -> T,
    SL: Fn((i32, T)) -> T,
    SD: Fn((i32, T)) -> T,
    Z: Fn(&[usize; 2]) -> P,
    AL: Fn(&P, &Vec<T>, &Vec<T>, &[usize; 2]) -> P,
    AD: Fn(&P, &Vec<T>, &Vec<T>, &[usize; 2]) -> P,
    C: Fn(&P, &usize) -> P,
>(
    ops: AccumulateOps<N, SL, SD, Z, AL, AD, C>,
    raw: &Batch<T>,
    ones: &Batch<T>,
    conv: &Batch<T>,
    i: int,
    k: nat,
    mean: int,
    deviation: int,
    worth: spec_fn(P) -> int,
    lora_worth: spec_fn(Seq<T>) -> int,
    dense_worth: spec_fn(Seq<T>) -> int,
    score_worth: spec_fn(T) -> int,
)
    requires
        raw.valid(),
        ones.valid(),
        conv.valid(),
        raw.chunks_held::<N, SL, SD>(ops.normal, ops.signed, ops.scaled),
        ones.chunks_held::<N, SL, SD>(ops.normal, ops.signed, ops.scaled),
        conv.chunks_held::<N, SL, SD>(ops.normal, ops.signed, ops.scaled),
        cache_is_fresh::<T, N, SL>(ops.normal, ops.signed, conv),
        normalises(raw, ones, conv, mean, deviation, score_worth),
        0 <= i < conv.shapes@.len(),
        k <= conv.accumulate,
        accumulates_exactly::<T, P, N, SL, SD, Z, AL, AD, C>(
            ops,
            conv.shapes@[i],
            conv.rank,
            worth,
            lora_worth,
            dense_worth,
            score_worth,
        ),
    ensures
        deviation * worth(ops.sum_after::<T, P>(conv, i, k)) == worth(
            ops.sum_after::<T, P>(raw, i, k),
        ) - mean * worth(ops.sum_after::<T, P>(ones, i, k)),
    decreases k,
{
    let class = conv.class_of(i);
    assert(raw.class_of(i) == class && ones.class_of(i) == class);
    if k == 0 {
        assert(deviation * 0 == 0 && mean * 0 == 0) by (nonlinear_arith);
    } else {
        let q = k - 1;
        chunk_sums_are_affine::<T, P, N, SL, SD, Z, AL, AD, C>(
            ops,
            raw,
            ones,
            conv,
            i,
            q as nat,
            mean,
            deviation,
            worth,
            lora_worth,
            dense_worth,
            score_worth,
        );
        if class == 0 || class == 1 {
            let chunk = conv.chunk as int;
            chunks_partition_batch(q, chunk, conv.accumulate as int);
            assert(raw.chunk_held::<N, SL, SD>(ops.normal, ops.signed, ops.scaled, i, q));
            assert(ones.chunk_held::<N, SL, SD>(ops.normal, ops.signed, ops.scaled, i, q));
            assert(conv.chunk_held::<N, SL, SD>(ops.normal, ops.signed, ops.scaled, i, q));
            let (a, b) = (conv.shapes@[i]@[0] as int, conv.shapes@[i]@[1] as int);
            let len = if class == 1 {
                (a + b) * conv.rank
            } else {
                a * b
            };
            assert(0 <= (a + b) * conv.rank && 0 <= a * b) by (nonlinear_arith)
                requires
                    0 <= a,
                    0 <= b,
                    0 <= conv.rank,
            ;
            assert(0 <= chunk * len) by (nonlinear_arith)
                requires
                    0 <= chunk,
                    0 <= len,
            ;
            let flat = if class == 1 {
                conv.lora_noise::<N, SL>(ops.normal, ops.signed, i, q)
            } else {
                conv.dense_noise::<N, SD>(ops.normal, ops.scaled, i, q)
            };
            if class == 1 {
                cache_changes_nothing::<T, N, SL>(ops.normal, ops.signed, conv, i, q);
                assert(conv.source(i) == raw.source(i) && conv.source(i) == ones.source(i));
                assert(conv.chunk_tids(q) == raw.chunk_tids(q));
                assert(conv.chunk_tids(q) == ones.chunk_tids(q));
            }
            let row_worth = if class == 1 {
                lora_worth
            } else {
                dense_worth
            };
            let f = |j: int| row_worth(flat.subrange(j * len, j * len + len));
            let (sc, sr, so) = (conv.chunk_scores(q), raw.chunk_scores(q), ones.chunk_scores(q));
            let (c, r, o) = (
                |j: int| score_worth(sc[j]),
                |j: int| score_worth(sr[j]),
                |j: int| score_worth(so[j]),
            );
            assert forall|j: int| 0 <= j < chunk implies deviation * #[trigger] c(j) == r(j)
                - mean by {
                assert(sc[j] == conv.scores@[q * chunk + j]);
            }
            assert forall|j: int| 0 <= j < chunk implies #[trigger] o(j) == 1 by {
                assert(so[j] == ones.scores@[q * chunk + j]);
            }
            dotted_is_affine(f, c, r, o, chunk as nat, mean, deviation);
            let (wc, wr, wo) = (
                worth(ops.sum_after::<T, P>(conv, i, q as nat)),
                worth(ops.sum_after::<T, P>(raw, i, q as nat)),
                worth(ops.sum_after::<T, P>(ones, i, q as nat)),
            );
            let (dc, dr, d1) = (
                dotted(f, c, chunk as nat),
                dotted(f, r, chunk as nat),
                dotted(f, o, chunk as nat),
            );
            assert(worth(ops.sum_after::<T, P>(conv, i, k)) == wc + dc);
            assert(worth(ops.sum_after::<T, P>(raw, i, k)) == wr + dr);
            assert(worth(ops.sum_after::<T, P>(ones, i, k)) == wo + d1);
            assert(deviation * (wc + dc) == (wr + dr) - mean * (wo + d1)) by (nonlinear_arith)
                requires
                    deviation * wc == wr - mean * wo,
                    deviation * dc == dr - mean * d1,
            ;
        }
    }
}

/// One pass over raw scores is two passes: in a coordinate in which the arithmetic is exact, the
/// gradients that the mean and the deviation make of the chunk sums of raw scores and of ones are
/// the accumulated gradients of the normalised scores.
pub proof fn combined_gradients_are_accumulated<
    T: Copy,
    P,
    N: Fn((u32, u32)) -> T,
    SL: Fn((i32, T)) -> T,
    SD: Fn((i32, T)) -> T,
    Z: Fn(&[usize; 2]) -> P,
    AL: Fn(&P, &Vec<T>, &Vec<T>, &[usize; 2]) -> P,
    AD: Fn(&P, &Vec<T>, &Vec<T>, &[usize; 2]) -> P,
    C: Fn(&P, &usize) -> P,
    S,
    TI: Fn(&P, &S) -> P,
    MI: Fn(&P, &P) -> P,
    FA: Fn(&S, &usize) -> S,
>(
    ops: AccumulateOps<N, SL, SD, Z, AL, AD, C>,
    affine: AffineOps<TI, MI, FA>,
    raw: &Batch<T>,
    ones: &Batch<T>,
    conv: &Batch<T>,
    mean: S,
    std: S,
    i: int,
    mean_worth: int,
    deviation: int,
    worth: spec_fn(P) -> int,
    lora_worth: spec_fn(Seq<T>) -> int,
    dense_worth: spec_fn(Seq<T>) -> int,
    score_worth: spec_fn(T) -> int,
)
    requires
        raw.valid(),
        ones.valid(),
        conv.valid(),
        raw.chunks_held::<N, SL, SD>(ops.normal, ops.signed, ops.scaled),
        ones.chunks_held::<N, SL, SD>(ops.normal, ops.signed, ops.scaled),
        conv.chunks_held::<N, SL, SD>(ops.normal, ops.signed, ops.scaled),
        cache_is_fresh::<T, N, SL>(ops.normal, ops.signed, conv),
        normalises(raw, ones, conv, mean_worth, deviation, score_worth),
        0 <= i < conv.shapes@.len(),
        accumulates_exactly::<T, P, N, SL, SD, Z, AL, AD, C>(
            ops,
            conv.shapes@[i],
            conv.rank,
            worth,
            lora_worth,
            dense_worth,
            score_worth,
        ),
        forall|p: P, q: P| #[trigger]
            worth(value2::<P, P, P, MI>(affine.minus, p, q)) == worth(p) - worth(q),
        forall|p: P| #[trigger]
            worth(value2::<P, S, P, TI>(affine.times, p, mean)) == mean_worth * worth(p),
        ({
            let n = (conv.accumulate * conv.chunk) as usize;
            let factor = value2::<S, usize, S, FA>(affine.factor, std, n);
            forall|p: P, q: P|
                worth(p) == deviation * worth(q) ==> #[trigger] worth(
                    value2::<P, S, P, TI>(affine.times, p, factor),
                ) == #[trigger] worth(value2::<P, usize, P, C>(ops.rescale, q, n))
        }),
    ensures
        worth(
            affine.combined::<P, S>(
                ops.total::<T, P>(raw),
                ops.total::<T, P>(ones),
                mean,
                std,
                (conv.accumulate * conv.chunk) as usize,
            )[i],
        ) == worth(ops.accumulated::<T, P>(conv)[i]),
{
    let n = (conv.accumulate * conv.chunk) as usize;
    chunk_sums_are_affine::<T, P, N, SL, SD, Z, AL, AD, C>(
        ops,
        raw,
        ones,
        conv,
        i,
        conv.accumulate as nat,
        mean_worth,
        deviation,
        worth,
        lora_worth,
        dense_worth,
        score_worth,
    );
    let (r, o, c) = (
        ops.total::<T, P>(raw)[i],
        ops.total::<T, P>(ones)[i],
        ops.total::<T, P>(conv)[i],
    );
    let centred = value2::<P, P, P, MI>(
        affine.minus,
        r,
        value2::<P, S, P, TI>(affine.times, o, mean),
    );
    assert(worth(centred) == deviation * worth(c));
    assert(worth(
        value2::<P, S, P, TI>(
            affine.times,
            centred,
            value2::<S, usize, S, FA>(affine.factor, std, n),
        ),
    ) == worth(value2::<P, usize, P, C>(ops.rescale, c, n)));
}

} // verus!
