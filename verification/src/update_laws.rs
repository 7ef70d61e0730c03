//! What holds of perturbations and of the gradients made of them: the two samples of a pair are
//! moved in opposite directions, and a gradient is a mean of perturbations weighted by scores.

use vstd::arithmetic::div_mod::lemma_fundamental_div_mod_converse;
use vstd::prelude::*;

use crate::noise::{pairs_are_antithetic, IterInfo};
use crate::noiser::{
    drawable, with_noise, FrozenNoiserParams, Noise, NoiseForm, NoiseOps, NoiseView, NoiserKind,
};
use crate::ops::{value, value1, value2, value3};
use crate::perturb::{
    joint_index, joint_index_in_matrix, matrix_element, scattered, sparse_columns, sparse_rows,
    SparseNoise,
};
use crate::reals::{quotient_times, real_sum, sum_of_equals, sum_of_sums, times_one};
use crate::solver::{AdamRule, Solver, SolverOps, Stepped};
use crate::update::{
    gradient, gradients_of, noise_of_product, noise_of_standard, share, terms_of, GradientOps,
};

verus! {

// ---------------------------------------------------------------------------
// Perturbations
// ---------------------------------------------------------------------------
/// A perturbation in the opposite direction: dense and sparse noise with each number negated,
/// low-rank noise with the numbers of the first factor negated.
pub open spec fn opposite<T>(noise: NoiseView<T>, minus: spec_fn(T) -> T) -> NoiseView<T> {
    match noise {
        NoiseView::Zero => NoiseView::Zero,
        NoiseView::Dense(values) => NoiseView::Dense(values.map_values(minus)),
        NoiseView::Lora(a, b) => NoiseView::Lora(a.map_values(minus), b),
        NoiseView::Sparse(values, rows, cols) => NoiseView::Sparse(
            values.map_values(minus),
            rows,
            cols,
        ),
    }
}

impl<N, D, L, B, H> NoiseOps<N, D, L, B, H> {
    /// Whether the sign of a number goes through the operations on noise.
    pub open spec fn keeps_signs<T>(&self, minus: spec_fn(T) -> T) -> bool where
        N: Fn((u32, u32)) -> T,
        D: Fn((i32, T)) -> T,
        L: Fn((i32, T)) -> T,
        B: Fn(T) -> T,
        H: Fn(T) -> T,
     {
        &&& forall|x: T|
            #[trigger] value::<(i32, T), T, D>(self.scaled, (-1i32, x)) == minus(
                value::<(i32, T), T, D>(self.scaled, (1i32, x)),
            )
        &&& forall|x: T|
            #[trigger] value::<(i32, T), T, L>(self.signed, (-1i32, x)) == minus(
                value::<(i32, T), T, L>(self.signed, (1i32, x)),
            )
        &&& forall|x: T|
            #[trigger] value::<T, T, B>(self.scale, minus(x)) == minus(
                value::<T, T, B>(self.scale, x),
            )
        &&& forall|x: T|
            #[trigger] value::<T, T, H>(self.hushed, minus(x)) == minus(
                value::<T, T, H>(self.hushed, x),
            )
    }

    /// Pairs move in opposite directions: of every form of noise, the thread `2 * i + 1` draws the
    /// opposite of what the thread `2 * i` draws.
    pub proof fn pairs_move_oppositely<T>(
        &self,
        minus: spec_fn(T) -> T,
        form: NoiseForm,
        keep: bool,
        key: u64,
        shape: [usize; 2],
        epoch: i32,
        i: int,
        noise_reuse: i32,
        rank: usize,
    ) where
        N: Fn((u32, u32)) -> T,
        D: Fn((i32, T)) -> T,
        L: Fn((i32, T)) -> T,
        B: Fn(T) -> T,
        H: Fn(T) -> T,

        requires
            self.keeps_signs::<T>(minus),
            0 <= 2 * i,
            2 * i + 1 <= i32::MAX,
        ensures
            self.drawn::<T>(
                form,
                keep,
                key,
                shape,
                IterInfo { epoch, thread_id: (2 * i + 1) as i32 },
                noise_reuse,
                rank,
            ) == opposite(
                self.drawn::<T>(
                    form,
                    keep,
                    key,
                    shape,
                    IterInfo { epoch, thread_id: (2 * i) as i32 },
                    noise_reuse,
                    rank,
                ),
                minus,
            ),
    {
        pairs_are_antithetic(key, epoch, noise_reuse, i);
        let even = self.drawn::<T>(
            form,
            keep,
            key,
            shape,
            IterInfo { epoch, thread_id: (2 * i) as i32 },
            noise_reuse,
            rank,
        );
        let odd = self.drawn::<T>(
            form,
            keep,
            key,
            shape,
            IterInfo { epoch, thread_id: (2 * i + 1) as i32 },
            noise_reuse,
            rank,
        );
        match (even, odd) {
            (NoiseView::Dense(e), NoiseView::Dense(o)) => {
                assert(o =~= e.map_values(minus));
            },
            (NoiseView::Lora(ea, eb), NoiseView::Lora(oa, ob)) => {
                assert(oa =~= ea.map_values(minus));
                assert(ob =~= eb);
            },
            (NoiseView::Sparse(ev, er, ec), NoiseView::Sparse(ov, or, oc)) => {
                assert(ov =~= ev.map_values(minus));
                assert(or =~= er);
                assert(oc =~= ec);
            },
            _ => {},
        }
    }

    /// Silent noise is nothing, and noise has the sizes of its parameter: where silencing gives
    /// zero, dense and low-rank noise that is not kept is zero everywhere. Dense noise has a number
    /// for each element, the factors of low-rank noise have `rank` numbers for each row and each
    /// column, and sparse noise has as many coordinates as the longer side.
    pub proof fn silent_noise_is_nothing<T>(
        &self,
        zero: T,
        form: NoiseForm,
        key: u64,
        shape: [usize; 2],
        info: IterInfo,
        noise_reuse: i32,
        rank: usize,
    ) where
        N: Fn((u32, u32)) -> T,
        D: Fn((i32, T)) -> T,
        L: Fn((i32, T)) -> T,
        B: Fn(T) -> T,
        H: Fn(T) -> T,

        requires
            forall|x: T| #[trigger] value::<T, T, H>(self.hushed, x) == zero,
        ensures
            ({
                let (a, b) = (shape@[0] as int, shape@[1] as int);
                match self.drawn::<T>(form, false, key, shape, info, noise_reuse, rank) {
                    NoiseView::Zero => form == NoiseForm::Zero,
                    NoiseView::Dense(values) => {
                        &&& form == NoiseForm::Dense
                        &&& values == Seq::new((a * b) as nat, |k: int| zero)
                    },
                    NoiseView::Lora(fa, fb) => {
                        &&& form == NoiseForm::Lora
                        &&& fa == Seq::new((a * rank) as nat, |k: int| zero)
                        &&& fb == Seq::new((b * rank) as nat, |k: int| zero)
                    },
                    NoiseView::Sparse(values, rows, cols) => {
                        &&& form == NoiseForm::Sparse
                        &&& a <= values.len() && b <= values.len()
                        &&& values.len() == a || values.len() == b
                        &&& rows.len() == values.len()
                        &&& cols.len() == values.len()
                    },
                }
            }),
    {
        let (a, b) = (shape@[0] as int, shape@[1] as int);
        match self.drawn::<T>(form, false, key, shape, info, noise_reuse, rank) {
            NoiseView::Dense(values) => {
                assert(values =~= Seq::new((a * b) as nat, |k: int| zero));
            },
            NoiseView::Lora(fa, fb) => {
                assert(fa =~= Seq::new((a * rank) as nat, |k: int| zero));
                assert(fb =~= Seq::new((b * rank) as nat, |k: int| zero));
            },
            _ => {},
        }
    }
}

/// What moves a parameter is what its gradient is made of: the noise of products enters the
/// gradients of the matrices, and the noise of parameters that are used as they are enters theirs.
/// No other parameter moves, and only a noiser with silent directions silences an iteration.
pub proof fn gradients_use_the_noise_of_the_pass(
    kind: NoiserKind,
    frozen: bool,
    class: i32,
    info: IterInfo,
    group_size: i32,
)
    ensures
        kind.update_form(1, false) == kind.product_form(true),
        kind.update_form(0, frozen) == kind.standard_form(true, frozen),
        kind.product_form(true) != NoiseForm::Dense ==> kind.update_form(1, frozen)
            == kind.product_form(true),
        class != 0 && class != 1 ==> kind.update_form(class, frozen) == NoiseForm::Zero,
        !kind.keeps(info, group_size) ==> kind == NoiserKind::EggRollBS,
{
}

/// Coordinates are elements of the matrix: row times width plus column of a sparse coordinate is
/// its joint index, an element of the matrix, and the column is one of the matrix.
pub proof fn coordinates_are_joint(state: u64, a: int, b: int, i: int)
    requires
        0 < a <= i32::MAX,
        0 < b <= i32::MAX,
        a * b <= i32::MAX,
        0 <= i < a || 0 <= i < b,
    ensures
        ({
            let (rows, cols) = (sparse_rows(state, a, b), sparse_columns(state, a, b));
            &&& 0 <= rows[i] < a
            &&& 0 <= cols[i] < b
            &&& rows[i] * b + cols[i] == joint_index(state, i as nat, a * b)
        }),
{
    joint_index_in_matrix(state, i as nat, a, b);
}

/// A sparse coordinate adds its input times its value.
pub open spec fn scatters_exactly<T, M: Fn((T, T, T)) -> T, Q: Fn((T, T)) -> T>(
    add: M,
    plus: Q,
    zero: T,
    worth: spec_fn(T) -> real,
) -> bool {
    &&& worth(zero) == 0real
    &&& forall|y: T, x: T, v: T|
        worth(#[trigger] value::<(T, T, T), T, M>(add, (y, x, v))) == worth(y) + worth(x) * worth(v)
    &&& forall|y: T, v: T|
        worth(#[trigger] value::<(T, T), T, Q>(plus, (y, v))) == worth(y) + worth(v)
}

/// The products of row `j` of the inputs with row `o` of a sparse perturbation as a matrix.
pub open spec fn sparse_products<T, Q: Fn((T, T)) -> T>(
    plus: Q,
    zero: T,
    worth: spec_fn(T) -> real,
    x: Seq<T>,
    noise: SparseNoise<T>,
    in_cols: int,
    j: int,
    o: int,
    n: nat,
) -> Seq<real> {
    Seq::new(
        in_cols as nat,
        |c: int|
            worth(x[j * in_cols + c]) * worth(
                matrix_element::<T, Q>(plus, zero, noise, in_cols, o * in_cols + c, n),
            ),
    )
}

/// Scattering is a matrix product: over exact numbers, a result to which the first `n` coordinates
/// of a sparse perturbation are scattered grows by the product of the row of inputs with the row
/// of the matrix that these coordinates make up.
pub proof fn scattering_is_a_product<T, M: Fn((T, T, T)) -> T, Q: Fn((T, T)) -> T>(
    add: M,
    plus: Q,
    zero: T,
    worth: spec_fn(T) -> real,
    base: Seq<T>,
    x: Seq<T>,
    noise: SparseNoise<T>,
    in_cols: int,
    out_cols: int,
    j: int,
    o: int,
    n: nat,
)
    requires
        scatters_exactly::<T, M, Q>(add, plus, zero, worth),
        n <= noise.values@.len(),
        noise.idxa@.len() == noise.values@.len(),
        noise.idxb@.len() == noise.values@.len(),
        forall|i: int| 0 <= i < noise.idxa@.len() ==> 0 <= #[trigger] noise.idxa@[i] < out_cols,
        forall|i: int| 0 <= i < noise.idxb@.len() ==> 0 <= #[trigger] noise.idxb@[i] < in_cols,
        0 <= j,
        0 <= o < out_cols,
        0 < in_cols,
    ensures
        worth(
            scattered::<T, M>(add, base, x, noise, in_cols, out_cols, j * out_cols + o, n),
        ) == worth(base[j * out_cols + o]) + real_sum(
            sparse_products::<T, Q>(plus, zero, worth, x, noise, in_cols, j, o, n),
        ),
    decreases n,
{
    let p = j * out_cols + o;
    let now = sparse_products::<T, Q>(plus, zero, worth, x, noise, in_cols, j, o, n);
    if n == 0 {
        assert forall|c: int| 0 <= c < now.len() implies #[trigger] now[c] == 0real by {
            times_one(worth(x[j * in_cols + c]));
        }
        sum_of_equals(now, 0real);
        times_one(now.len() as real);
    } else {
        let m = (n - 1) as nat;
        let was = sparse_products::<T, Q>(plus, zero, worth, x, noise, in_cols, j, o, m);
        scattering_is_a_product::<T, M, Q>(
            add,
            plus,
            zero,
            worth,
            base,
            x,
            noise,
            in_cols,
            out_cols,
            j,
            o,
            m,
        );
        let (ra, rb) = (noise.idxa@[m as int] as int, noise.idxb@[m as int] as int);
        lemma_fundamental_div_mod_converse(p, out_cols, j, o);
        let grown = Seq::new(
            in_cols as nat,
            |c: int|
                if ra == o && c == rb {
                    worth(x[j * in_cols + c]) * worth(noise.values@[m as int])
                } else {
                    0real
                },
        );
        assert forall|c: int| 0 <= c < now.len() implies #[trigger] now[c] == was[c] + grown[c] by {
            lemma_fundamental_div_mod_converse(
                o * in_cols + c,
                in_cols,
                o,
                c,
            );
            lemma_fundamental_div_mod_converse(
                ra * in_cols + rb,
                in_cols,
                ra,
                rb,
            );
            let (u, e, v) = (
                worth(x[j * in_cols + c]),
                worth(matrix_element::<T, Q>(plus, zero, noise, in_cols, o * in_cols + c, m)),
                worth(noise.values@[m as int]),
            );
            assert(u * (e + v) == u * e + u * v) by (nonlinear_arith);
        }
        sum_of_sums(was, grown, now);
        if ra == o {
            sum_of_one(grown, rb);
        } else {
            sum_of_equals(grown, 0real);
            times_one(grown.len() as real);
        }
    }
}

/// A list with one number that is not zero sums up to it.
proof fn sum_of_one(s: Seq<real>, at: int)
    requires
        0 <= at < s.len(),
        forall|i: int| 0 <= i < s.len() && i != at ==> #[trigger] s[i] == 0real,
    ensures
        real_sum(s) == s[at],
    decreases s.len(),
{
    let rest = s.drop_last();
    if at == s.len() - 1 {
        sum_of_equals(rest, 0real);
        times_one(rest.len() as real);
    } else {
        sum_of_one(rest, at);
        assert(s.last() == 0real);
    }
}

// ---------------------------------------------------------------------------
// Gradients
// ---------------------------------------------------------------------------
impl<Z, A, SA, SB, E, G> GradientOps<Z, A, SA, SB, E, G> {
    /// Whether the arithmetic is exact in a coordinate: a sample adds its noise times its score, a
    /// sum is divided by the number of scores and multiplied with the share, and the gradient is
    /// negated and multiplied with the root of the number of scores.
    pub open spec fn exact<T, P>(
        &self,
        shape: [usize; 2],
        worth: spec_fn(P) -> real,
        noise_worth: spec_fn(NoiseView<T>) -> real,
        score_worth: spec_fn(T) -> real,
        root: spec_fn(int) -> real,
    ) -> bool where
        Z: Fn(&[usize; 2]) -> P,
        A: Fn(&P, &Noise<T>, &T) -> P,
        E: Fn(&P, &(usize, usize, usize)) -> P,
        G: Fn(&P, &usize) -> P,
     {
        &&& worth(value1::<[usize; 2], P, Z>(self.zeros, shape)) == 0real
        &&& forall|acc: P, noise: NoiseView<T>, score: T|
            worth(#[trigger] with_noise::<P, T, T, P, A>(self.add, acc, noise, score)) == worth(
                acc,
            ) + noise_worth(noise) * score_worth(score)
        &&& forall|acc: P, count: usize, num: usize, den: usize|
            worth(
                #[trigger] value2::<P, (usize, usize, usize), P, E>(
                    self.mean,
                    acc,
                    (count, num, den),
                ),
            ) == worth(acc) / (count as real) * (num as real / den as real)
        &&& forall|acc: P, count: usize|
            worth(#[trigger] value2::<P, usize, P, G>(self.finish, acc, count)) == -(worth(acc)
                * root(count as int))
    }

    /// Only signs count for the noiser that goes by signs: low-rank noise of the same signs
    /// contributes the same, in each factor by the signs of that factor. For every other noiser,
    /// and of every other form, the noise contributes itself.
    pub proof fn only_signs_count<T>(
        &self,
        kind: NoiserKind,
        one: NoiseView<T>,
        other: NoiseView<T>,
    ) where SA: Fn(T) -> T, SB: Fn(T) -> T
        ensures
            match (one, other) {
                (NoiseView::Lora(a1, b1), NoiseView::Lora(a2, b2)) if kind
                    == NoiserKind::AltEggRoll => (self.term::<T>(kind, one) == self.term::<T>(
                    kind,
                    other,
                )) == (a1.map_values(|x: T| value::<T, T, SA>(self.sign_a, x)) == a2.map_values(
                    |x: T| value::<T, T, SA>(self.sign_a, x),
                ) && b1.map_values(|x: T| value::<T, T, SB>(self.sign_b, x)) == b2.map_values(
                    |x: T| value::<T, T, SB>(self.sign_b, x),
                )),
                _ => true,
            },
            kind != NoiserKind::AltEggRoll || !(one is Lora) ==> self.term::<T>(kind, one) == one,
    {
    }

    proof fn weighted_sum_is_a_sum<T, P>(
        &self,
        shape: [usize; 2],
        worth: spec_fn(P) -> real,
        noise_worth: spec_fn(NoiseView<T>) -> real,
        score_worth: spec_fn(T) -> real,
        root: spec_fn(int) -> real,
        terms: Seq<NoiseView<T>>,
        scores: Seq<T>,
        n: nat,
    ) where
        Z: Fn(&[usize; 2]) -> P,
        A: Fn(&P, &Noise<T>, &T) -> P,
        E: Fn(&P, &(usize, usize, usize)) -> P,
        G: Fn(&P, &usize) -> P,

        requires
            self.exact::<T, P>(shape, worth, noise_worth, score_worth, root),
        ensures
            worth(self.weighted_sum::<T, P>(shape, terms, scores, n)) == real_sum(
                Seq::new(n, |j: int| noise_worth(terms[j]) * score_worth(scores[j])),
            ),
        decreases n,
    {
        let sums = Seq::new(n, |j: int| noise_worth(terms[j]) * score_worth(scores[j]));
        if n > 0 {
            let m = (n - 1) as nat;
            self.weighted_sum_is_a_sum::<T, P>(
                shape,
                worth,
                noise_worth,
                score_worth,
                root,
                terms,
                scores,
                m,
            );
            assert(sums.drop_last() =~= Seq::new(
                m,
                |j: int| noise_worth(terms[j]) * score_worth(scores[j]),
            ));
        }
    }
}

/// Gradients weigh what moved the pass: the noise that enters the gradient of a matrix for an
/// iteration is the noise that the iteration's matrix product was under, and that of a parameter
/// that is used as it is, the noise that the parameter was under. Without an iteration there was
/// none, and none ever for the identity noiser.
pub proof fn gradients_weigh_the_noise_of_the_pass<
    T,
    S,
    N: Fn((u32, u32)) -> T,
    D: Fn((i32, T)) -> T,
    L: Fn((i32, T)) -> T,
    B: Fn(T) -> T,
    H: Fn(T) -> T,
    Z,
    A,
    SA: Fn(T) -> T,
    SB: Fn(T) -> T,
    E,
    G,
>(
    kind: NoiserKind,
    ops: NoiseOps<N, D, L, B, H>,
    arith: GradientOps<Z, A, SA, SB, E, G>,
    frozen: FrozenNoiserParams<S>,
    shape: [usize; 2],
    key: u64,
    infos: Seq<IterInfo>,
    j: int,
)
    requires
        0 <= j < infos.len(),
    ensures
        ({
            let product = noise_of_product::<T, S, N, D, L, B, H>(
                kind,
                ops,
                frozen,
                shape,
                key,
                Some(infos[j]),
            );
            let standard = noise_of_standard::<T, S, N, D, L, B, H>(
                kind,
                ops,
                frozen,
                shape,
                key,
                Some(infos[j]),
            );
            let matrix_terms = terms_of::<T, S, N, D, L, B, H, Z, A, SA, SB, E, G>(
                kind,
                kind.update_form(1, frozen.freeze_nonlora),
                ops,
                arith,
                frozen,
                shape,
                key,
                infos,
            );
            let terms = terms_of::<T, S, N, D, L, B, H, Z, A, SA, SB, E, G>(
                kind,
                kind.update_form(0, frozen.freeze_nonlora),
                ops,
                arith,
                frozen,
                shape,
                key,
                infos,
            );
            &&& !frozen.freeze_nonlora || kind != NoiserKind::OpenES ==> matrix_terms[j]
                == arith.term::<T>(kind, product)
            &&& terms[j] == standard
            &&& noise_of_product::<T, S, N, D, L, B, H>(kind, ops, frozen, shape, key, None)
                == NoiseView::<T>::Zero
            &&& noise_of_standard::<T, S, N, D, L, B, H>(kind, ops, frozen, shape, key, None)
                == NoiseView::<T>::Zero
            &&& kind == NoiserKind::Base ==> product == NoiseView::<T>::Zero
            &&& kind == NoiserKind::Base || frozen.freeze_nonlora ==> standard == NoiseView::<
                T,
            >::Zero
        }),
{
}

/// Whether a noiser moves a parameter of a class, and by noise of which form.
pub open spec fn moves(kind: NoiserKind, class: i32, frozen: bool, form: NoiseForm) -> bool {
    &&& kind != NoiserKind::Base
    &&& class == 0 || class == 1
    &&& form == (if class == 0 || kind == NoiserKind::OpenES {
        NoiseForm::Dense
    } else if kind == NoiserKind::Sparse {
        NoiseForm::Sparse
    } else {
        NoiseForm::Lora
    })
    &&& form == NoiseForm::Dense ==> !frozen
}

/// The noise that moves a parameter in each iteration, times the score of the iteration.
pub open spec fn weighted_noise<
    T,
    S,
    N: Fn((u32, u32)) -> T,
    D: Fn((i32, T)) -> T,
    L: Fn((i32, T)) -> T,
    B: Fn(T) -> T,
    H: Fn(T) -> T,
>(
    kind: NoiserKind,
    form: NoiseForm,
    ops: NoiseOps<N, D, L, B, H>,
    frozen: FrozenNoiserParams<S>,
    shape: [usize; 2],
    key: u64,
    scores: Seq<T>,
    infos: Seq<IterInfo>,
    noise_worth: spec_fn(NoiseView<T>) -> real,
    score_worth: spec_fn(T) -> real,
) -> Seq<real> {
    Seq::new(
        infos.len(),
        |j: int|
            noise_worth(
                ops.drawn::<T>(
                    form,
                    kind.keeps(infos[j], frozen.group_size),
                    key,
                    shape,
                    infos[j],
                    frozen.noise_reuse,
                    frozen.rank,
                ),
            ) * score_worth(scores[j]),
    )
}

/// The gradient of a parameter that moves, over exact numbers.
proof fn moved_gradient<
    T: Copy,
    S,
    P,
    N: Fn((u32, u32)) -> T,
    D: Fn((i32, T)) -> T,
    L: Fn((i32, T)) -> T,
    B: Fn(T) -> T,
    H: Fn(T) -> T,
    Z: Fn(&[usize; 2]) -> P,
    A: Fn(&P, &Noise<T>, &T) -> P,
    SA: Fn(T) -> T,
    SB: Fn(T) -> T,
    E: Fn(&P, &(usize, usize, usize)) -> P,
    G: Fn(&P, &usize) -> P,
>(
    kind: NoiserKind,
    class: i32,
    ops: NoiseOps<N, D, L, B, H>,
    arith: GradientOps<Z, A, SA, SB, E, G>,
    frozen: FrozenNoiserParams<S>,
    shape: [usize; 2],
    key: u64,
    scores: Seq<T>,
    infos: Seq<IterInfo>,
    worth: spec_fn(P) -> real,
    noise_worth: spec_fn(NoiseView<T>) -> real,
    score_worth: spec_fn(T) -> real,
    root: spec_fn(int) -> real,
)
    requires
        arith.exact::<T, P>(shape, worth, noise_worth, score_worth, root),
        kind != NoiserKind::AltEggRoll,
        kind.update_form(class, frozen.freeze_nonlora) != NoiseForm::Zero,
        scores.len() <= usize::MAX,
    ensures
        ({
            let form = kind.update_form(class, frozen.freeze_nonlora);
            let (num, den) = share(form, shape);
            worth(
                gradient::<T, S, P, N, D, L, B, H, Z, A, SA, SB, E, G>(
                    kind,
                    class,
                    ops,
                    arith,
                    frozen,
                    shape,
                    key,
                    scores,
                    infos,
                ),
            ) == -((real_sum(
                weighted_noise::<T, S, N, D, L, B, H>(
                    kind,
                    form,
                    ops,
                    frozen,
                    shape,
                    key,
                    scores,
                    infos,
                    noise_worth,
                    score_worth,
                ),
            ) / (scores.len() as real) * (num as usize as real / den as usize as real)) * root(
                scores.len() as int,
            ))
        }),
{
    let form = kind.update_form(class, frozen.freeze_nonlora);
    let terms = terms_of::<T, S, N, D, L, B, H, Z, A, SA, SB, E, G>(
        kind,
        form,
        ops,
        arith,
        frozen,
        shape,
        key,
        infos,
    );
    arith.weighted_sum_is_a_sum::<T, P>(
        shape,
        worth,
        noise_worth,
        score_worth,
        root,
        terms,
        scores,
        infos.len(),
    );
    let found = Seq::new(
        infos.len(),
        |j: int| noise_worth(terms[j]) * score_worth(scores[j]),
    );
    assert(found =~= weighted_noise::<T, S, N, D, L, B, H>(
        kind,
        form,
        ops,
        frozen,
        shape,
        key,
        scores,
        infos,
        noise_worth,
        score_worth,
    ));
}

/// A gradient points against the weighted noise: over exact numbers, the gradient of a parameter
/// that moves, times the number of scores, is minus the root of that number times the sum over the
/// iterations of the noise that moved the parameter times the score. Sparse noise counts by the
/// share of the elements that it touches, the longer side over all elements. A parameter that does
/// not move has a gradient of zero.
pub proof fn gradients_are_weighted_noise<
    T: Copy,
    S,
    P,
    N: Fn((u32, u32)) -> T,
    D: Fn((i32, T)) -> T,
    L: Fn((i32, T)) -> T,
    B: Fn(T) -> T,
    H: Fn(T) -> T,
    Z: Fn(&[usize; 2]) -> P,
    A: Fn(&P, &Noise<T>, &T) -> P,
    SA: Fn(T) -> T,
    SB: Fn(T) -> T,
    E: Fn(&P, &(usize, usize, usize)) -> P,
    G: Fn(&P, &usize) -> P,
>(
    kind: NoiserKind,
    class: i32,
    form: NoiseForm,
    ops: NoiseOps<N, D, L, B, H>,
    arith: GradientOps<Z, A, SA, SB, E, G>,
    frozen: FrozenNoiserParams<S>,
    shape: [usize; 2],
    key: u64,
    scores: Seq<T>,
    infos: Seq<IterInfo>,
    worth: spec_fn(P) -> real,
    noise_worth: spec_fn(NoiseView<T>) -> real,
    score_worth: spec_fn(T) -> real,
    root: spec_fn(int) -> real,
)
    requires
        arith.exact::<T, P>(shape, worth, noise_worth, score_worth, root),
        drawable(form, shape, frozen.rank),
        0 < scores.len() <= usize::MAX,
        infos.len() == scores.len(),
        shape@[0] > 0,
        shape@[1] > 0,
    ensures
        ({
            let count = scores.len() as real;
            let (a, b) = (shape@[0] as int, shape@[1] as int);
            let share = if kind == NoiserKind::Sparse && class == 1 {
                if a < b {
                    b as real / (a * b) as real
                } else {
                    a as real / (a * b) as real
                }
            } else {
                1real
            };
            let grad = gradient::<T, S, P, N, D, L, B, H, Z, A, SA, SB, E, G>(
                kind,
                class,
                ops,
                arith,
                frozen,
                shape,
                key,
                scores,
                infos,
            );
            &&& moves(kind, class, frozen.freeze_nonlora, form) && kind != NoiserKind::AltEggRoll
                ==> worth(grad) * count == -(root(scores.len() as int) * share * real_sum(
                weighted_noise::<T, S, N, D, L, B, H>(
                    kind,
                    form,
                    ops,
                    frozen,
                    shape,
                    key,
                    scores,
                    infos,
                    noise_worth,
                    score_worth,
                ),
            ))
            &&& !(exists|f: NoiseForm| #[trigger] moves(kind, class, frozen.freeze_nonlora, f))
                ==> worth(grad) == 0real
        }),
{
    let grad = gradient::<T, S, P, N, D, L, B, H, Z, A, SA, SB, E, G>(
        kind,
        class,
        ops,
        arith,
        frozen,
        shape,
        key,
        scores,
        infos,
    );
    let r = root(scores.len() as int);
    if moves(kind, class, frozen.freeze_nonlora, form) {
        if kind != NoiserKind::AltEggRoll {
            moved_gradient::<T, S, P, N, D, L, B, H, Z, A, SA, SB, E, G>(
                kind,
                class,
                ops,
                arith,
                frozen,
                shape,
                key,
                scores,
                infos,
                worth,
                noise_worth,
                score_worth,
                root,
            );
            let s = real_sum(
                weighted_noise::<T, S, N, D, L, B, H>(
                    kind,
                    form,
                    ops,
                    frozen,
                    shape,
                    key,
                    scores,
                    infos,
                    noise_worth,
                    score_worth,
                ),
            );
            let count = scores.len() as real;
            let (num, den) = share(form, shape);
            let q = num as real / den as real;
            quotient_times(1real, 1real);
            quotient_times(s, count);
            scaled_mean(s, count, q, r);
        }
    } else if !(exists|f: NoiseForm| #[trigger] moves(kind, class, frozen.freeze_nonlora, f)) {
        assert(!moves(kind, class, frozen.freeze_nonlora, NoiseForm::Dense));
        assert(!moves(kind, class, frozen.freeze_nonlora, NoiseForm::Lora));
        assert(!moves(kind, class, frozen.freeze_nonlora, NoiseForm::Sparse));
        times_one(r);
    }
}

proof fn scaled_mean(s: real, count: real, q: real, r: real)
    requires
        count != 0real,
    ensures
        -((s / count * q) * r) * count == -(r * q * s),
{
    quotient_times(s, count);
    let mean = s / count;
    assert(-((mean * q) * r) * count == -(r * q * s)) by (nonlinear_arith)
        requires
            mean * count == s,
    ;
}

/// Updates climb: with plain descent over exact numbers, a parameter that moves has moved by the
/// learning rate times the root of the number of scores, over that number, times the sum of the
/// noise of its own key, shape and class times the scores: towards the noise of high scores. A
/// parameter that does not move stays.
pub proof fn updates_climb<
    T: Copy,
    S,
    P,
    N: Fn((u32, u32)) -> T,
    D: Fn((i32, T)) -> T,
    L: Fn((i32, T)) -> T,
    B: Fn(T) -> T,
    H: Fn(T) -> T,
    Z: Fn(&[usize; 2]) -> P,
    A: Fn(&P, &Noise<T>, &T) -> P,
    SA: Fn(T) -> T,
    SB: Fn(T) -> T,
    E: Fn(&P, &(usize, usize, usize)) -> P,
    G: Fn(&P, &usize) -> P,
    O1: Fn(&P, &P, &S) -> P,
    O2: Fn(&P, &P, &S) -> P,
    O3: Fn(&P, &P, &S) -> P,
    O4: Fn(&P, &P, &P, &AdamRule<S>) -> P,
    O5: Fn(&Vec<P>, &S) -> Vec<P>,
>(
    kind: NoiserKind,
    form: NoiseForm,
    ops: NoiseOps<N, D, L, B, H>,
    arith: GradientOps<Z, A, SA, SB, E, G>,
    solver_ops: SolverOps<O1, O2, O3, O4, O5>,
    lr: S,
    frozen: FrozenNoiserParams<S>,
    at: Stepped<P>,
    shapes: Seq<[usize; 2]>,
    keys: Seq<u64>,
    classes: Seq<i32>,
    scores: Seq<T>,
    infos: Seq<IterInfo>,
    i: int,
    worth: spec_fn(P) -> real,
    noise_worth: spec_fn(NoiseView<T>) -> real,
    score_worth: spec_fn(T) -> real,
    scalar: spec_fn(S) -> real,
    root: spec_fn(int) -> real,
)
    requires
        0 <= i < at.params.len(),
        shapes.len() == at.params.len(),
        keys.len() >= at.params.len(),
        classes.len() >= at.params.len(),
        arith.exact::<T, P>(shapes[i], worth, noise_worth, score_worth, root),
        solver_ops.descends_exactly::<P, S>(worth, scalar),
        drawable(form, shapes[i], frozen.rank),
        0 < scores.len() <= usize::MAX,
        infos.len() == scores.len(),
        shapes[i]@[0] > 0,
        shapes[i]@[1] > 0,
    ensures
        ({
            let next = solver_ops.step::<P, S>(
                Solver::Sgd { lr },
                at.params,
                gradients_of::<T, S, P, N, D, L, B, H, Z, A, SA, SB, E, G>(
                    kind,
                    ops,
                    arith,
                    frozen,
                    shapes,
                    keys,
                    classes,
                    scores,
                    infos,
                ),
                at.step,
                at.moments,
            );
            let moved = worth(next.params[i]) - worth(at.params[i]);
            let n = scores.len() as real;
            &&& next.params.len() == at.params.len()
            &&& moves(kind, classes[i], frozen.freeze_nonlora, form) && form != NoiseForm::Sparse
                && kind != NoiserKind::AltEggRoll ==> moved * n == scalar(lr) * (root(
                scores.len() as int,
            ) * real_sum(
                weighted_noise::<T, S, N, D, L, B, H>(
                    kind,
                    form,
                    ops,
                    frozen,
                    shapes[i],
                    keys[i],
                    scores,
                    infos,
                    noise_worth,
                    score_worth,
                ),
            ))
            &&& !(exists|f: NoiseForm| #[trigger]
                moves(kind, classes[i], frozen.freeze_nonlora, f)) ==> moved == 0real
        }),
{
    let grads = gradients_of::<T, S, P, N, D, L, B, H, Z, A, SA, SB, E, G>(
        kind,
        ops,
        arith,
        frozen,
        shapes,
        keys,
        classes,
        scores,
        infos,
    );
    gradients_are_weighted_noise::<T, S, P, N, D, L, B, H, Z, A, SA, SB, E, G>(
        kind,
        classes[i],
        form,
        ops,
        arith,
        frozen,
        shapes[i],
        keys[i],
        scores,
        infos,
        worth,
        noise_worth,
        score_worth,
        root,
    );
    let (l, g, n) = (scalar(lr), worth(grads[i]), scores.len() as real);
    let r = root(scores.len() as int);
    let s = real_sum(
        weighted_noise::<T, S, N, D, L, B, H>(
            kind,
            form,
            ops,
            frozen,
            shapes[i],
            keys[i],
            scores,
            infos,
            noise_worth,
            score_worth,
        ),
    );
    assert(worth(value3::<P, P, S, P, O1>(solver_ops.sgd, at.params[i], grads[i], lr)) == worth(
        at.params[i],
    ) - l * g);
    times_one(l);
    times_one(r);
    if g * n == -(r * 1real * s) {
        assert(-(l * g) * n == l * (r * s)) by (nonlinear_arith)
            requires
                g * n == -(r * 1real * s),
        ;
    }
}

/// Equal scores of a pair cancel: where both samples of every pair have scores of one worth and
/// opposite noise is worth the opposite, the gradient is zero. A pair tells only by the difference
/// of its scores.
pub proof fn even_pairs_move_nothing<
    T: Copy,
    S,
    P,
    N: Fn((u32, u32)) -> T,
    D: Fn((i32, T)) -> T,
    L: Fn((i32, T)) -> T,
    B: Fn(T) -> T,
    H: Fn(T) -> T,
    Z: Fn(&[usize; 2]) -> P,
    A: Fn(&P, &Noise<T>, &T) -> P,
    SA: Fn(T) -> T,
    SB: Fn(T) -> T,
    E: Fn(&P, &(usize, usize, usize)) -> P,
    G: Fn(&P, &usize) -> P,
>(
    kind: NoiserKind,
    class: i32,
    ops: NoiseOps<N, D, L, B, H>,
    arith: GradientOps<Z, A, SA, SB, E, G>,
    frozen: FrozenNoiserParams<S>,
    shape: [usize; 2],
    key: u64,
    scores: Seq<T>,
    epoch: i32,
    pairs: nat,
    minus: spec_fn(T) -> T,
    worth: spec_fn(P) -> real,
    noise_worth: spec_fn(NoiseView<T>) -> real,
    score_worth: spec_fn(T) -> real,
    root: spec_fn(int) -> real,
)
    requires
        arith.exact::<T, P>(shape, worth, noise_worth, score_worth, root),
        ops.keeps_signs::<T>(minus),
        forall|n: NoiseView<T>|
            noise_worth(#[trigger] opposite(n, minus)) == -noise_worth(n),
        kind != NoiserKind::AltEggRoll,
        kind != NoiserKind::EggRollBS,
        0 < pairs,
        2 * pairs <= i32::MAX,
        scores.len() == 2 * pairs,
        forall|i: int|
            0 <= i < pairs ==> score_worth(#[trigger] scores[2 * i]) == score_worth(
                scores[2 * i + 1],
            ),
    ensures
        worth(
            gradient::<T, S, P, N, D, L, B, H, Z, A, SA, SB, E, G>(
                kind,
                class,
                ops,
                arith,
                frozen,
                shape,
                key,
                scores,
                Seq::new(2 * pairs, |t: int| IterInfo { epoch, thread_id: t as i32 }),
            ),
        ) == 0real,
{
    let infos = Seq::new(2 * pairs, |t: int| IterInfo { epoch, thread_id: t as i32 });
    let form = kind.update_form(class, frozen.freeze_nonlora);
    let count = scores.len() as real;
    let r = root(scores.len() as int);
    times_one(r);
    if form != NoiseForm::Zero {
        moved_gradient::<T, S, P, N, D, L, B, H, Z, A, SA, SB, E, G>(
            kind,
            class,
            ops,
            arith,
            frozen,
            shape,
            key,
            scores,
            infos,
            worth,
            noise_worth,
            score_worth,
            root,
        );
        let sums = weighted_noise::<T, S, N, D, L, B, H>(
            kind,
            form,
            ops,
            frozen,
            shape,
            key,
            scores,
            infos,
            noise_worth,
            score_worth,
        );
        assert forall|i: int| 0 <= i < pairs implies sums[2 * i + 1] == -#[trigger] sums[2 * i] by {
            ops.pairs_move_oppositely::<T>(
                minus,
                form,
                true,
                key,
                shape,
                epoch,
                i,
                frozen.noise_reuse,
                frozen.rank,
            );
            assert(infos[2 * i] == (IterInfo { epoch, thread_id: (2 * i) as i32 }));
            assert(infos[2 * i + 1] == (IterInfo { epoch, thread_id: (2 * i + 1) as i32 }));
            let even = ops.drawn::<T>(
                form,
                true,
                key,
                shape,
                infos[2 * i],
                frozen.noise_reuse,
                frozen.rank,
            );
            assert(noise_worth(opposite(even, minus)) == -noise_worth(even));
            assert(score_worth(scores[2 * i]) == score_worth(scores[2 * i + 1]));
            let (w, s) = (noise_worth(even), score_worth(scores[2 * i]));
            assert((-w) * s == -(w * s)) by (nonlinear_arith);
        }
        pairs_cancel(sums, pairs);
        let (num, den) = share(form, shape);
        let q = num as usize as real / den as usize as real;
        assert(0real / count == 0real) by (nonlinear_arith)
            requires
                count > 0real,
        ;
        times_one(q);
    }
}

proof fn pairs_cancel(s: Seq<real>, pairs: nat)
    requires
        s.len() == 2 * pairs,
        forall|i: int| 0 <= i < pairs ==> s[2 * i + 1] == -#[trigger] s[2 * i],
    ensures
        real_sum(s) == 0real,
    decreases pairs,
{
    if pairs > 0 {
        let rest = s.drop_last().drop_last();
        let m = (pairs - 1) as nat;
        assert forall|i: int| 0 <= i < m implies rest[2 * i + 1] == -#[trigger] rest[2 * i] by {
            assert(s[2 * i + 1] == -s[2 * i]);
        }
        pairs_cancel(rest, m);
        let at = 2 * (pairs - 1);
        assert(s[2 * (pairs - 1) + 1] == -s[2 * (pairs - 1)]);
        assert(s.last() == s[at + 1] && s.drop_last().last() == s[at]);
        assert(real_sum(s) == real_sum(s.drop_last()) + s.last());
        assert(real_sum(s.drop_last()) == real_sum(rest) + s.drop_last().last());
    }
}

} // verus!
