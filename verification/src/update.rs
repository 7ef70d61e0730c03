//! Noised forward passes and evolution-strategies updates.
//!
//! A gradient is a sum over iterations of perturbations weighted by scores. The
//! sums are built here; the arithmetic on parameters `P` and scores `T` is
//! handed in.

use vstd::prelude::*;

use crate::lora_cache::paired_len;
use crate::noise::{reuse_valid, IterInfo};
use crate::noiser::{
    apply_noise, drawable, reads_noise, with_noise, FrozenNoiserParams, Noise, NoiseForm, NoiseOps,
    NoiseView, NoiserKind, NoiserParams,
};
use crate::ops::{
    apply1, apply2, computes, computes1, computes2, map_each, value, value1, value2,
};
use crate::perturb::{sparse_count, LoraNoise};
use crate::solver::{shorter, AdamRule, SolverOps};

verus! {

// ---------------------------------------------------------------------------
// Forward passes
// ---------------------------------------------------------------------------
/// The noise of a matrix product: none without an iteration.
pub open spec fn noise_of_product<
    T,
    S,
    N: Fn((u32, u32)) -> T,
    D: Fn((i32, T)) -> T,
    L: Fn((i32, T)) -> T,
    B: Fn(T) -> T,
    H: Fn(T) -> T,
>(
    kind: NoiserKind,
    ops: NoiseOps<N, D, L, B, H>,
    frozen: FrozenNoiserParams<S>,
    shape: [usize; 2],
    base_key: u64,
    iterinfo: Option<IterInfo>,
) -> NoiseView<T> {
    match iterinfo {
        None => NoiseView::Zero,
        Some(info) => ops.drawn::<T>(
            kind.product_form(true),
            kind.keeps(info, frozen.group_size),
            base_key,
            shape,
            info,
            frozen.noise_reuse,
            frozen.rank,
        ),
    }
}

/// The noise of a parameter that is used as it is: none without an iteration, and none for a
/// frozen noiser.
pub open spec fn noise_of_standard<
    T,
    S,
    N: Fn((u32, u32)) -> T,
    D: Fn((i32, T)) -> T,
    L: Fn((i32, T)) -> T,
    B: Fn(T) -> T,
    H: Fn(T) -> T,
>(
    kind: NoiserKind,
    ops: NoiseOps<N, D, L, B, H>,
    frozen: FrozenNoiserParams<S>,
    shape: [usize; 2],
    base_key: u64,
    iterinfo: Option<IterInfo>,
) -> NoiseView<T> {
    match iterinfo {
        None => NoiseView::Zero,
        Some(info) => ops.drawn::<T>(
            kind.standard_form(true, frozen.freeze_nonlora),
            kind.keeps(info, frozen.group_size),
            base_key,
            shape,
            info,
            frozen.noise_reuse,
            frozen.rank,
        ),
    }
}

/// A matrix product under noise: `product` of the parameter, the noise and the input. Without an
/// iteration there is no noise.
pub fn noisy_product<
    T: Copy,
    S,
    P,
    X,
    Y,
    N: Fn((u32, u32)) -> T,
    D: Fn((i32, T)) -> T,
    L: Fn((i32, T)) -> T,
    B: Fn(T) -> T,
    H: Fn(T) -> T,
    F: Fn(&P, &Noise<T>, &X) -> Y,
>(
    kind: NoiserKind,
    ops: &NoiseOps<N, D, L, B, H>,
    frozen: &FrozenNoiserParams<S>,
    param: &P,
    shape: [usize; 2],
    base_key: u64,
    iterinfo: Option<IterInfo>,
    x: &X,
    product: &F,
) -> (y: Y)
    requires
        ops.valid::<T>(),
        reads_noise::<P, T, X, Y, F>(*product),
        iterinfo is Some ==> reuse_valid(iterinfo->Some_0, frozen.noise_reuse),
        drawable(kind.product_form(iterinfo is Some), shape, frozen.rank),
    ensures
        y == with_noise::<P, T, X, Y, F>(
            *product,
            *param,
            noise_of_product::<T, S, N, D, L, B, H>(
                kind,
                *ops,
                *frozen,
                shape,
                base_key,
                iterinfo,
            ),
            *x,
        ),
{
    match iterinfo {
        None => {
            let none: Noise<T> = Noise::Zero;
            apply_noise(product, param, &none, x)
        },
        Some(info) => {
            let form = kind.product_noise(true);
            let keep: bool = kind.keep(&info, frozen.group_size);
            let noise: Noise<T> = ops.draw(
                form,
                keep,
                base_key,
                shape,
                &info,
                frozen.noise_reuse,
                frozen.rank,
            );
            apply_noise(product, param, &noise, x)
        },
    }
}

/// A parameter under noise: `perturbed` of the parameter, the noise and the shape. Without an
/// iteration, and for a frozen noiser, there is no noise.
pub fn get_noisy_standard<
    T: Copy,
    S,
    P,
    N: Fn((u32, u32)) -> T,
    D: Fn((i32, T)) -> T,
    L: Fn((i32, T)) -> T,
    B: Fn(T) -> T,
    H: Fn(T) -> T,
    F: Fn(&P, &Noise<T>, &[usize; 2]) -> P,
>(
    kind: NoiserKind,
    ops: &NoiseOps<N, D, L, B, H>,
    frozen: &FrozenNoiserParams<S>,
    param: &P,
    shape: [usize; 2],
    base_key: u64,
    iterinfo: Option<IterInfo>,
    perturbed: &F,
) -> (y: P)
    requires
        ops.valid::<T>(),
        reads_noise::<P, T, [usize; 2], P, F>(*perturbed),
        iterinfo is Some ==> reuse_valid(iterinfo->Some_0, frozen.noise_reuse),
        drawable(
            kind.standard_form(iterinfo is Some, frozen.freeze_nonlora),
            shape,
            frozen.rank,
        ),
    ensures
        y == with_noise::<P, T, [usize; 2], P, F>(
            *perturbed,
            *param,
            noise_of_standard::<T, S, N, D, L, B, H>(
                kind,
                *ops,
                *frozen,
                shape,
                base_key,
                iterinfo,
            ),
            shape,
        ),
{
    let none: Noise<T> = Noise::Zero;
    match iterinfo {
        None => apply_noise(perturbed, param, &none, &shape),
        Some(info) => {
            let form = kind.standard_noise(true, frozen.freeze_nonlora);
            if form == NoiseForm::Zero {
                return apply_noise(perturbed, param, &none, &shape);
            }
            let keep: bool = kind.keep(&info, frozen.group_size);
            let noise: Noise<T> = ops.draw(
                form,
                keep,
                base_key,
                shape,
                &info,
                frozen.noise_reuse,
                frozen.rank,
            );
            apply_noise(perturbed, param, &noise, &shape)
        },
    }
}

// ---------------------------------------------------------------------------
// Gradients
// ---------------------------------------------------------------------------
/// The arithmetic of a gradient.
pub struct GradientOps<Z, A, SA, SB, E, G> {
    /// Zero of a shape.
    pub zeros: Z,
    /// A sum plus a perturbation times a score.
    pub add: A,
    /// The scaled sign of an element of the first factor of low-rank noise.
    pub sign_a: SA,
    /// The sign of an element of the second factor of low-rank noise.
    pub sign_b: SB,
    /// A sum divided by the number of scores, times a share: of the sum, and the number of scores
    /// with the numerator and the denominator of the share.
    pub mean: E,
    /// The negated gradient, rescaled by the number of scores.
    pub finish: G,
}

/// The share of a matrix that noise of a form touches, as numerator and denominator: sparse noise
/// of an `(a, b)` matrix has as many coordinates as its longer side.
pub open spec fn share(form: NoiseForm, shape: [usize; 2]) -> (int, int) {
    let (a, b) = (shape@[0] as int, shape@[1] as int);
    if form == NoiseForm::Sparse {
        (sparse_count(a, b), a * b)
    } else {
        (1, 1)
    }
}

/// The share of a matrix that noise of a form touches.
fn share_of(form: NoiseForm, shape: [usize; 2], rank: usize) -> (r: (usize, usize))
    requires
        drawable(form, shape, rank),
    ensures
        (r.0 as int, r.1 as int) == share(form, shape),
{
    let a: usize = shape[0];
    let b: usize = shape[1];
    if form == NoiseForm::Sparse {
        (
            if a < b {
                b
            } else {
                a
            },
            a * b,
        )
    } else {
        (1, 1)
    }
}

impl<Z, A, SA, SB, E, G> GradientOps<Z, A, SA, SB, E, G> {
    /// Each operation gives one result for each argument.
    pub open spec fn valid<T, P>(&self) -> bool where
        Z: Fn(&[usize; 2]) -> P,
        A: Fn(&P, &Noise<T>, &T) -> P,
        SA: Fn(T) -> T,
        SB: Fn(T) -> T,
        E: Fn(&P, &(usize, usize, usize)) -> P,
        G: Fn(&P, &usize) -> P,
     {
        &&& computes1::<[usize; 2], P, Z>(self.zeros)
        &&& reads_noise::<P, T, T, P, A>(self.add)
        &&& computes::<T, T, SA>(self.sign_a)
        &&& computes::<T, T, SB>(self.sign_b)
        &&& computes2::<P, (usize, usize, usize), P, E>(self.mean)
        &&& computes2::<P, usize, P, G>(self.finish)
    }

    /// What a perturbation contributes to a gradient: itself, but for the noiser that goes by the
    /// signs of both factors of low-rank noise.
    pub open spec fn term<T>(&self, kind: NoiserKind, noise: NoiseView<T>) -> NoiseView<T> where
        SA: Fn(T) -> T,
        SB: Fn(T) -> T,
     {
        match noise {
            NoiseView::Lora(a, b) if kind == NoiserKind::AltEggRoll => NoiseView::Lora(
                a.map_values(|x: T| value::<T, T, SA>(self.sign_a, x)),
                b.map_values(|x: T| value::<T, T, SB>(self.sign_b, x)),
            ),
            _ => noise,
        }
    }

    /// Makes what a perturbation contributes to a gradient.
    fn contribution<T: Copy>(&self, kind: NoiserKind, noise: Noise<T>) -> (term: Noise<T>) where
        SA: Fn(T) -> T,
        SB: Fn(T) -> T,

        requires
            computes::<T, T, SA>(self.sign_a),
            computes::<T, T, SB>(self.sign_b),
        ensures
            term@ == self.term::<T>(kind, noise@),
    {
        match noise {
            Noise::Lora(factors) => {
                if kind == NoiserKind::AltEggRoll {
                    Noise::Lora(
                        LoraNoise {
                            a: map_each(&factors.a, &self.sign_a),
                            b: map_each(&factors.b, &self.sign_b),
                        },
                    )
                } else {
                    Noise::Lora(factors)
                }
            },
            other => other,
        }
    }

    /// The sum of the first `n` perturbations, each times its score.
    pub open spec fn weighted_sum<T, P>(
        &self,
        shape: [usize; 2],
        terms: Seq<NoiseView<T>>,
        scores: Seq<T>,
        n: nat,
    ) -> P where Z: Fn(&[usize; 2]) -> P, A: Fn(&P, &Noise<T>, &T) -> P
        decreases n,
    {
        if n == 0 {
            value1::<[usize; 2], P, Z>(self.zeros, shape)
        } else {
            with_noise::<P, T, T, P, A>(
                self.add,
                self.weighted_sum::<T, P>(shape, terms, scores, (n - 1) as nat),
                terms[n - 1],
                scores[n - 1],
            )
        }
    }
}

/// What the perturbations of a parameter in a list of iterations contribute to its gradient.
pub open spec fn terms_of<
    T,
    S,
    N: Fn((u32, u32)) -> T,
    D: Fn((i32, T)) -> T,
    L: Fn((i32, T)) -> T,
    B: Fn(T) -> T,
    H: Fn(T) -> T,
    Z,
    A,
    SA: Fn(T) -> T,
    SB: Fn(T) -> T,
    E,
    G,
>(
    kind: NoiserKind,
    form: NoiseForm,
    ops: NoiseOps<N, D, L, B, H>,
    arith: GradientOps<Z, A, SA, SB, E, G>,
    frozen: FrozenNoiserParams<S>,
    shape: [usize; 2],
    key: u64,
    infos: Seq<IterInfo>,
) -> Seq<NoiseView<T>> {
    Seq::new(
        infos.len(),
        |j: int|
            arith.term::<T>(
                kind,
                ops.drawn::<T>(
                    form,
                    kind.keeps(infos[j], frozen.group_size),
                    key,
                    shape,
                    infos[j],
                    frozen.noise_reuse,
                    frozen.rank,
                ),
            ),
    )
}

/// The gradient of a parameter: zero for a parameter that does not move, else the mean over the
/// iterations of what their perturbations contribute times their scores, times the share of the
/// matrix that the noise touches; negated and rescaled.
pub open spec fn gradient<
    T: Copy,
    S,
    P,
    N: Fn((u32, u32)) -> T,
    D: Fn((i32, T)) -> T,
    L: Fn((i32, T)) -> T,
    B: Fn(T) -> T,
    H: Fn(T) -> T,
    Z: Fn(&[usize; 2]) -> P,
    A: Fn(&P, &Noise<T>, &T) -> P,
    SA: Fn(T) -> T,
    SB: Fn(T) -> T,
    E: Fn(&P, &(usize, usize, usize)) -> P,
    G: Fn(&P, &usize) -> P,
>(
    kind: NoiserKind,
    class: i32,
    ops: NoiseOps<N, D, L, B, H>,
    arith: GradientOps<Z, A, SA, SB, E, G>,
    frozen: FrozenNoiserParams<S>,
    shape: [usize; 2],
    key: u64,
    scores: Seq<T>,
    infos: Seq<IterInfo>,
) -> P {
    let form = kind.update_form(class, frozen.freeze_nonlora);
    let count = scores.len() as usize;
    if form == NoiseForm::Zero {
        value2::<P, usize, P, G>(
            arith.finish,
            value1::<[usize; 2], P, Z>(arith.zeros, shape),
            count,
        )
    } else {
        let terms = terms_of::<T, S, N, D, L, B, H, Z, A, SA, SB, E, G>(
            kind,
            form,
            ops,
            arith,
            frozen,
            shape,
            key,
            infos,
        );
        value2::<P, usize, P, G>(
            arith.finish,
            value2::<P, (usize, usize, usize), P, E>(
                arith.mean,
                arith.weighted_sum::<T, P>(shape, terms, scores, infos.len()),
                (count, share(form, shape).0 as usize, share(form, shape).1 as usize),
            ),
            count,
        )
    }
}

/// The gradient of a parameter.
pub fn do_update<
    T: Copy,
    S,
    P,
    N: Fn((u32, u32)) -> T,
    D: Fn((i32, T)) -> T,
    L: Fn((i32, T)) -> T,
    B: Fn(T) -> T,
    H: Fn(T) -> T,
    Z: Fn(&[usize; 2]) -> P,
    A: Fn(&P, &Noise<T>, &T) -> P,
    SA: Fn(T) -> T,
    SB: Fn(T) -> T,
    E: Fn(&P, &(usize, usize, usize)) -> P,
    G: Fn(&P, &usize) -> P,
>(
    kind: NoiserKind,
    class: i32,
    ops: &NoiseOps<N, D, L, B, H>,
    arith: &GradientOps<Z, A, SA, SB, E, G>,
    frozen: &FrozenNoiserParams<S>,
    shape: [usize; 2],
    key: u64,
    scores: &[T],
    infos: &[IterInfo],
) -> (grad: P)
    requires
        ops.valid::<T>(),
        arith.valid::<T, P>(),
        infos@.len() <= scores@.len(),
        forall|i: int|
            0 <= i < infos@.len() ==> reuse_valid(#[trigger] infos@[i], frozen.noise_reuse),
        drawable(kind.update_form(class, frozen.freeze_nonlora), shape, frozen.rank),
    ensures
        grad == gradient::<T, S, P, N, D, L, B, H, Z, A, SA, SB, E, G>(
            kind,
            class,
            *ops,
            *arith,
            *frozen,
            shape,
            key,
            scores@,
            infos@,
        ),
{
    let form = kind.update_noise(class, frozen.freeze_nonlora);
    let count: usize = scores.len();
    let mut acc: P = apply1(&arith.zeros, &shape);
    if form == NoiseForm::Zero {
        return apply2(&arith.finish, &acc, &count);
    }
    let ghost terms = terms_of::<T, S, N, D, L, B, H, Z, A, SA, SB, E, G>(
        kind,
        form,
        *ops,
        *arith,
        *frozen,
        shape,
        key,
        infos@,
    );
    let mut i: usize = 0;
    while i < infos.len()
        invariant
            ops.valid::<T>(),
            arith.valid::<T, P>(),
            i <= infos@.len() <= scores@.len(),
            forall|k: int|
                0 <= k < infos@.len() ==> reuse_valid(#[trigger] infos@[k], frozen.noise_reuse),
            drawable(form, shape, frozen.rank),
            terms == terms_of::<T, S, N, D, L, B, H, Z, A, SA, SB, E, G>(
                kind,
                form,
                *ops,
                *arith,
                *frozen,
                shape,
                key,
                infos@,
            ),
            acc == arith.weighted_sum::<T, P>(shape, terms, scores@, i as nat),
        decreases infos@.len() - i,
    {
        let keep: bool = kind.keep(&infos[i], frozen.group_size);
        let noise: Noise<T> = ops.draw(
            form,
            keep,
            key,
            shape,
            &infos[i],
            frozen.noise_reuse,
            frozen.rank,
        );
        let term: Noise<T> = arith.contribution(kind, noise);
        acc = apply_noise(&arith.add, &acc, &term, &scores[i]);
        i = i + 1;
    }
    let (num, den): (usize, usize) = share_of(form, shape, frozen.rank);
    let mean: P = apply2(&arith.mean, &acc, &(count, num, den));
    apply2(&arith.finish, &mean, &count)
}

// ---------------------------------------------------------------------------
// Updates
// ---------------------------------------------------------------------------
/// The gradients of the parameters that have a key and a class.
pub open spec fn gradients_of<
    T: Copy,
    S,
    P,
    N: Fn((u32, u32)) -> T,
    D: Fn((i32, T)) -> T,
    L: Fn((i32, T)) -> T,
    B: Fn(T) -> T,
    H: Fn(T) -> T,
    Z: Fn(&[usize; 2]) -> P,
    A: Fn(&P, &Noise<T>, &T) -> P,
    SA: Fn(T) -> T,
    SB: Fn(T) -> T,
    E: Fn(&P, &(usize, usize, usize)) -> P,
    G: Fn(&P, &usize) -> P,
>(
    kind: NoiserKind,
    ops: NoiseOps<N, D, L, B, H>,
    arith: GradientOps<Z, A, SA, SB, E, G>,
    frozen: FrozenNoiserParams<S>,
    shapes: Seq<[usize; 2]>,
    keys: Seq<u64>,
    classes: Seq<i32>,
    scores: Seq<T>,
    infos: Seq<IterInfo>,
) -> Seq<P> {
    Seq::new(
        paired_len(shapes.len(), keys.len(), classes.len()),
        |i: int|
            gradient::<T, S, P, N, D, L, B, H, Z, A, SA, SB, E, G>(
                kind,
                classes[i],
                ops,
                arith,
                frozen,
                shapes[i],
                keys[i],
                scores,
                infos,
            ),
    )
}

/// The update of all parameters: their gradients, then one optimizer step. The identity noiser
/// copies the parameters and takes no step.
pub fn do_updates<
    T: Copy,
    S: Copy,
    P,
    N: Fn((u32, u32)) -> T,
    D: Fn((i32, T)) -> T,
    L: Fn((i32, T)) -> T,
    B: Fn(T) -> T,
    H: Fn(T) -> T,
    Z: Fn(&[usize; 2]) -> P,
    A: Fn(&P, &Noise<T>, &T) -> P,
    SA: Fn(T) -> T,
    SB: Fn(T) -> T,
    E: Fn(&P, &(usize, usize, usize)) -> P,
    G: Fn(&P, &usize) -> P,
    O1: Fn(&P, &P, &S) -> P,
    O2: Fn(&P, &P, &S) -> P,
    O3: Fn(&P, &P, &S) -> P,
    O4: Fn(&P, &P, &P, &AdamRule<S>) -> P,
    O5: Fn(&Vec<P>, &S) -> Vec<P>,
    K: Fn(&P) -> P,
>(
    kind: NoiserKind,
    ops: &NoiseOps<N, D, L, B, H>,
    arith: &GradientOps<Z, A, SA, SB, E, G>,
    solver_ops: &SolverOps<O1, O2, O3, O4, O5>,
    copy: &K,
    frozen: &FrozenNoiserParams<S>,
    noiser: &mut NoiserParams<S, P>,
    params: &[P],
    shapes: &[[usize; 2]],
    base_keys: &[u64],
    scores: &[T],
    infos: &[IterInfo],
    es_classes: &[i32],
) -> (out: Vec<P>)
    requires
        ops.valid::<T>(),
        arith.valid::<T, P>(),
        solver_ops.valid::<P, S>(),
        computes1::<P, P, K>(*copy),
        shapes@.len() == params@.len(),
        infos@.len() <= scores@.len(),
        forall|i: int|
            0 <= i < infos@.len() ==> reuse_valid(#[trigger] infos@[i], frozen.noise_reuse),
        forall|i: int|
            0 <= i < paired_len(shapes@.len(), base_keys@.len(), es_classes@.len()) ==> drawable(
                kind.update_form(es_classes@[i], frozen.freeze_nonlora),
                #[trigger] shapes@[i],
                frozen.rank,
            ),
        frozen.solver.keeps_moments() ==> paired_len(
            shapes@.len(),
            base_keys@.len(),
            es_classes@.len(),
        ) <= old(noiser).opt_state.moments@.len() && old(noiser).opt_state.step < i32::MAX,
    ensures
        final(noiser).sigma == old(noiser).sigma,
        kind != NoiserKind::Base ==> out@.len() == paired_len(
            shapes@.len(),
            base_keys@.len(),
            es_classes@.len(),
        ),
        if kind == NoiserKind::Base {
            &&& out@ == Seq::new(params@.len(), |i: int| value1::<P, P, K>(*copy, params@[i]))
            &&& *final(noiser) == *old(noiser)
        } else if params@.len() == 0 {
            out@.len() == 0 && *final(noiser) == *old(noiser)
        } else {
            let next = solver_ops.step::<P, S>(
                frozen.solver,
                params@,
                gradients_of::<T, S, P, N, D, L, B, H, Z, A, SA, SB, E, G>(
                    kind,
                    *ops,
                    *arith,
                    *frozen,
                    shapes@,
                    base_keys@,
                    es_classes@,
                    scores@,
                    infos@,
                ),
                old(noiser).opt_state.step as int,
                old(noiser).opt_state.moments@,
            );
            &&& out@ == next.params
            &&& final(noiser).opt_state.step == next.step
            &&& final(noiser).opt_state.moments@ == next.moments
        },
{
    if kind == NoiserKind::Base {
        let mut out: Vec<P> = Vec::with_capacity(params.len());
        let mut i: usize = 0;
        while i < params.len()
            invariant
                i <= params@.len(),
                out@.len() == i,
                computes1::<P, P, K>(*copy),
                forall|k: int|
                    0 <= k < i ==> #[trigger] out@[k] == value1::<P, P, K>(*copy, params@[k]),
            decreases params@.len() - i,
        {
            out.push(apply1(copy, &params[i]));
            i = i + 1;
        }
        proof {
            assert(out@ =~= Seq::new(
                params@.len(),
                |i: int| value1::<P, P, K>(*copy, params@[i]),
            ));
        }
        return out;
    }
    if params.len() == 0 {
        return Vec::new();
    }
    let ghost all = gradients_of::<T, S, P, N, D, L, B, H, Z, A, SA, SB, E, G>(
        kind,
        *ops,
        *arith,
        *frozen,
        shapes@,
        base_keys@,
        es_classes@,
        scores@,
        infos@,
    );
    let mut grads: Vec<P> = Vec::with_capacity(params.len());
    let mut i: usize = 0;
    while i < shapes.len() && i < base_keys.len() && i < es_classes.len()
        invariant
            ops.valid::<T>(),
            arith.valid::<T, P>(),
            infos@.len() <= scores@.len(),
            forall|k: int|
                0 <= k < infos@.len() ==> reuse_valid(#[trigger] infos@[k], frozen.noise_reuse),
            forall|k: int|
                0 <= k < paired_len(shapes@.len(), base_keys@.len(), es_classes@.len())
                    ==> drawable(
                    kind.update_form(es_classes@[k], frozen.freeze_nonlora),
                    #[trigger] shapes@[k],
                    frozen.rank,
                ),
            all == gradients_of::<T, S, P, N, D, L, B, H, Z, A, SA, SB, E, G>(
                kind,
                *ops,
                *arith,
                *frozen,
                shapes@,
                base_keys@,
                es_classes@,
                scores@,
                infos@,
            ),
            i <= paired_len(shapes@.len(), base_keys@.len(), es_classes@.len()),
            grads@.len() == i,
            forall|k: int| 0 <= k < i ==> #[trigger] grads@[k] == all[k],
        decreases shapes@.len() - i,
    {
        let grad: P = do_update(
            kind,
            es_classes[i],
            ops,
            arith,
            frozen,
            shapes[i],
            base_keys[i],
            scores,
            infos,
        );
        grads.push(grad);
        i = i + 1;
    }
    proof {
        assert(grads@ =~= all);
    }
    solver_ops.update(&frozen.solver, params, &grads, &mut noiser.opt_state)
}

// ---------------------------------------------------------------------------
// Gradients of normalised scores
// ---------------------------------------------------------------------------
/// The arithmetic that makes gradients of normalised scores of sums over raw ones.
pub struct AffineOps<TI, MI, FA> {
    /// A sum times a number.
    pub times: TI,
    /// The difference of two sums.
    pub minus: MI,
    /// The negated inverse of a deviation, rescaled by the number of scores.
    pub factor: FA,
}

impl<TI, MI, FA> AffineOps<TI, MI, FA> {
    /// Each operation gives one result for each argument.
    pub open spec fn valid<P, S>(&self) -> bool where
        TI: Fn(&P, &S) -> P,
        MI: Fn(&P, &P) -> P,
        FA: Fn(&S, &usize) -> S,
     {
        &&& computes2::<P, S, P, TI>(self.times)
        &&& computes2::<P, P, P, MI>(self.minus)
        &&& computes2::<S, usize, S, FA>(self.factor)
    }

    /// The gradient of normalised scores: the sum weighted by the raw scores, minus the mean times
    /// the plain sum, over the deviation, negated and rescaled.
    pub open spec fn corrected<P, S>(
        &self,
        raw: P,
        ones: P,
        mean: S,
        std: S,
        batch: usize,
    ) -> P where
        TI: Fn(&P, &S) -> P,
        MI: Fn(&P, &P) -> P,
        FA: Fn(&S, &usize) -> S,
     {
        value2::<P, S, P, TI>(
            self.times,
            value2::<P, P, P, MI>(
                self.minus,
                raw,
                value2::<P, S, P, TI>(self.times, ones, mean),
            ),
            value2::<S, usize, S, FA>(self.factor, std, batch),
        )
    }

    /// The gradients of normalised scores of all parameters that have both sums.
    pub open spec fn combined<P, S>(
        &self,
        raw: Seq<P>,
        ones: Seq<P>,
        mean: S,
        std: S,
        batch: usize,
    ) -> Seq<P> where
        TI: Fn(&P, &S) -> P,
        MI: Fn(&P, &P) -> P,
        FA: Fn(&S, &usize) -> S,
     {
        Seq::new(
            shorter(raw.len(), ones.len()),
            |i: int| self.corrected::<P, S>(raw[i], ones[i], mean, std, batch),
        )
    }
}

/// The gradients of normalised scores: for each parameter, of the sum weighted by the raw scores,
/// of the plain sum, and of the mean, the deviation and the number of the scores.
pub fn combine_affine_grads<
    P,
    S,
    TI: Fn(&P, &S) -> P,
    MI: Fn(&P, &P) -> P,
    FA: Fn(&S, &usize) -> S,
>(
    ops: &AffineOps<TI, MI, FA>,
    grad_acc: &[P],
    ones_acc: &[P],
    mean: &S,
    std: &S,
    batch: usize,
) -> (grads: Vec<P>)
    requires
        ops.valid::<P, S>(),
    ensures
        grads@ == ops.combined::<P, S>(grad_acc@, ones_acc@, *mean, *std, batch),
{
    let scale: S = apply2(&ops.factor, std, &batch);
    let mut grads: Vec<P> = Vec::with_capacity(grad_acc.len());
    let mut i: usize = 0;
    while i < grad_acc.len() && i < ones_acc.len()
        invariant
            i <= grad_acc@.len(),
            i <= ones_acc@.len(),
            ops.valid::<P, S>(),
            scale == value2::<S, usize, S, FA>(ops.factor, *std, batch),
            grads@.len() == i,
            forall|k: int|
                0 <= k < i ==> #[trigger] grads@[k] == ops.corrected::<P, S>(
                    grad_acc@[k],
                    ones_acc@[k],
                    *mean,
                    *std,
                    batch,
                ),
        decreases grad_acc@.len() - i,
    {
        let part: P = apply2(&ops.times, &ones_acc[i], mean);
        let centred: P = apply2(&ops.minus, &grad_acc[i], &part);
        grads.push(apply2(&ops.times, &centred, &scale));
        i = i + 1;
    }
    proof {
        assert(grads@ =~= ops.combined::<P, S>(grad_acc@, ones_acc@, *mean, *std, batch));
    }
    grads
}

} // verus!
