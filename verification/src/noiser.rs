//! The noisers: which perturbation each of them uses where, and the evolution
//! strategies update that follows from it.

use vstd::prelude::*;

use crate::noise::{reuse_valid, stream_of, IterInfo};
use crate::ops::{apply3, computes, computes1, computes3, value1, value3};
use crate::perturb::{
    can_fit_lora, dense_noise, get_lora_update_params, get_nonlora_update_params,
    get_sparse_update_params, keeps_noise, lora_a, lora_b, lora_fits, mask, sparse_columns,
    sparse_rows, sparse_values, LoraNoise, SparseNoise,
};
use crate::solver::{OptimizerState, Solver};

verus! {

// ---------------------------------------------------------------------------
// Configuration
// ---------------------------------------------------------------------------
/// The fixed parameters of a noiser.
#[derive(Debug)]
pub struct FrozenNoiserParams<S> {
    /// How many fitnesses are normalised together; zero for all.
    pub group_size: i32,
    /// Whether parameters without low-rank noise stay as they are.
    pub freeze_nonlora: bool,
    /// How many epochs share their noise; zero for all.
    pub noise_reuse: i32,
    /// The rank of low-rank noise.
    pub rank: usize,
    /// The optimizer.
    pub solver: Solver<S>,
}

/// The changing parameters of a noiser.
#[derive(Debug)]
pub struct NoiserParams<S, P> {
    /// The scale of the noise.
    pub sigma: S,
    /// The state of the optimizer.
    pub opt_state: OptimizerState<P>,
}

/// Builds the parameters of a noiser; `params` sizes the state of the optimizer.
pub fn init_noiser<S, P, Z: Fn(&P) -> P>(
    params: &[P],
    sigma: S,
    group_size: i32,
    freeze_nonlora: bool,
    noise_reuse: i32,
    rank: usize,
    solver: Solver<S>,
    zeros: &Z,
) -> (r: (FrozenNoiserParams<S>, NoiserParams<S, P>))
    requires
        computes1::<P, P, Z>(*zeros),
    ensures
        r.0 == (FrozenNoiserParams { group_size, freeze_nonlora, noise_reuse, rank, solver }),
        r.1.sigma == sigma,
        r.1.opt_state.step == 0,
        r.1.opt_state.moments@.len() == (if solver.keeps_moments() {
            params@.len()
        } else {
            0
        }),
        forall|i: int|
            0 <= i < r.1.opt_state.moments@.len() ==> (#[trigger] r.1.opt_state.moments@[i]).m
                == value1::<P, P, Z>(*zeros, params@[i]) && r.1.opt_state.moments@[i].v == value1::<
                P,
                P,
                Z,
            >(*zeros, params@[i]),
{
    let opt_state = solver.init_state(params, zeros);
    (
        FrozenNoiserParams { group_size, freeze_nonlora, noise_reuse, rank, solver },
        NoiserParams { sigma, opt_state },
    )
}

/// Builds the parameters of a noiser whose gradients are clipped by their global norm in front
/// of the optimizer.
pub fn init_clipped_noiser<S, P, Z: Fn(&P) -> P>(
    params: &[P],
    sigma: S,
    group_size: i32,
    freeze_nonlora: bool,
    noise_reuse: i32,
    rank: usize,
    trust_region_norm: S,
    solver: Solver<S>,
    zeros: &Z,
) -> (r: (FrozenNoiserParams<S>, NoiserParams<S, P>))
    requires
        computes1::<P, P, Z>(*zeros),
    ensures
        r.0.group_size == group_size,
        r.0.freeze_nonlora == freeze_nonlora,
        r.0.noise_reuse == noise_reuse,
        r.0.rank == rank,
        r.0.solver == (Solver::TrustRegion {
            max_norm: trust_region_norm,
            inner: Box::new(solver),
        }),
        r.1.sigma == sigma,
        r.1.opt_state.step == 0,
        r.1.opt_state.moments@.len() == (if solver.keeps_moments() {
            params@.len()
        } else {
            0
        }),
        forall|i: int|
            0 <= i < r.1.opt_state.moments@.len() ==> (#[trigger] r.1.opt_state.moments@[i]).m
                == value1::<P, P, Z>(*zeros, params@[i]) && r.1.opt_state.moments@[i].v == value1::<
                P,
                P,
                Z,
            >(*zeros, params@[i]),
{
    let clipped = Solver::TrustRegion { max_norm: trust_region_norm, inner: Box::new(solver) };
    init_noiser(
        params,
        sigma,
        group_size,
        freeze_nonlora,
        noise_reuse,
        rank,
        clipped,
        zeros,
    )
}

// ---------------------------------------------------------------------------
// Kinds of noisers
// ---------------------------------------------------------------------------
/// The identity noiser: no noise, no updates.
#[derive(Clone, Copy, Debug, Default)]
pub struct BaseNoiser;

/// Low-rank noise on matrices, dense noise elsewhere.
#[derive(Clone, Copy, Debug, Default)]
pub struct EggRoll;

/// [`EggRoll`] with a gradient of the signs of its low-rank noise.
#[derive(Clone, Copy, Debug, Default)]
pub struct AltEggRoll;

/// [`EggRoll`] with silent baseline directions and clipped gradients.
#[derive(Clone, Copy, Debug, Default)]
pub struct EggRollBS;

/// Dense noise everywhere.
#[derive(Clone, Copy, Debug, Default)]
pub struct OpenES;

/// Sparse noise on matrices, dense noise elsewhere.
#[derive(Clone, Copy, Debug, Default)]
pub struct Sparse;

/// The noisers.
#[derive(Clone, Copy, Debug, PartialEq, Eq, Structural)]
pub enum NoiserKind {
    /// [`BaseNoiser`].
    Base,
    /// [`EggRoll`].
    EggRoll,
    /// [`AltEggRoll`].
    AltEggRoll,
    /// [`EggRollBS`].
    EggRollBS,
    /// [`OpenES`].
    OpenES,
    /// [`Sparse`].
    Sparse,
}

impl BaseNoiser {
    /// Which noiser this is.
    pub fn kind(&self) -> (k: NoiserKind)
        ensures
            k == NoiserKind::Base,
    {
        NoiserKind::Base
    }
}

impl EggRoll {
    /// Which noiser this is.
    pub fn kind(&self) -> (k: NoiserKind)
        ensures
            k == NoiserKind::EggRoll,
    {
        NoiserKind::EggRoll
    }
}

impl AltEggRoll {
    /// Which noiser this is.
    pub fn kind(&self) -> (k: NoiserKind)
        ensures
            k == NoiserKind::AltEggRoll,
    {
        NoiserKind::AltEggRoll
    }
}

impl EggRollBS {
    /// Which noiser this is.
    pub fn kind(&self) -> (k: NoiserKind)
        ensures
            k == NoiserKind::EggRollBS,
    {
        NoiserKind::EggRollBS
    }
}

impl OpenES {
    /// Which noiser this is.
    pub fn kind(&self) -> (k: NoiserKind)
        ensures
            k == NoiserKind::OpenES,
    {
        NoiserKind::OpenES
    }
}

impl Sparse {
    /// Which noiser this is.
    pub fn kind(&self) -> (k: NoiserKind)
        ensures
            k == NoiserKind::Sparse,
    {
        NoiserKind::Sparse
    }
}

/// The forms of noise.
#[derive(Clone, Copy, Debug, PartialEq, Eq, Structural)]
pub enum NoiseForm {
    /// None.
    Zero,
    /// One number per element.
    Dense,
    /// Two factors.
    Lora,
    /// Numbers at some coordinates.
    Sparse,
}

impl NoiserKind {
    /// The noise of a matrix product: none without an iteration.
    pub open spec fn product_form(self, noisy: bool) -> NoiseForm {
        if !noisy {
            NoiseForm::Zero
        } else {
            match self {
                NoiserKind::Base => NoiseForm::Zero,
                NoiserKind::OpenES => NoiseForm::Dense,
                NoiserKind::Sparse => NoiseForm::Sparse,
                _ => NoiseForm::Lora,
            }
        }
    }

    /// The noise of a parameter that is used as it is: none without an iteration, and none for
    /// frozen parameters.
    pub open spec fn standard_form(self, noisy: bool, frozen: bool) -> NoiseForm {
        if self == NoiserKind::Base || !noisy || frozen {
            NoiseForm::Zero
        } else {
            NoiseForm::Dense
        }
    }

    /// The noise that enters the gradient of a parameter of an update class: class zero is dense
    /// unless frozen, class one is what the noiser uses for products, other classes do not move.
    pub open spec fn update_form(self, class: i32, frozen: bool) -> NoiseForm {
        let dense = if frozen {
            NoiseForm::Zero
        } else {
            NoiseForm::Dense
        };
        if self == NoiserKind::Base {
            NoiseForm::Zero
        } else if class == 0 {
            dense
        } else if class == 1 {
            match self {
                NoiserKind::OpenES => dense,
                NoiserKind::Sparse => NoiseForm::Sparse,
                _ => NoiseForm::Lora,
            }
        } else {
            NoiseForm::Zero
        }
    }

    /// Whether an iteration keeps its noise.
    pub open spec fn keeps(self, info: IterInfo, group_size: i32) -> bool {
        self != NoiserKind::EggRollBS || keeps_noise(info.thread_id, group_size)
    }

    /// The noise of a matrix product.
    pub fn product_noise(self, noisy: bool) -> (form: NoiseForm)
        ensures
            form == self.product_form(noisy),
    {
        if !noisy {
            return NoiseForm::Zero;
        }
        match self {
            NoiserKind::Base => NoiseForm::Zero,
            NoiserKind::OpenES => NoiseForm::Dense,
            NoiserKind::Sparse => NoiseForm::Sparse,
            _ => NoiseForm::Lora,
        }
    }

    /// The noise of a parameter that is used as it is.
    pub fn standard_noise(self, noisy: bool, freeze_nonlora: bool) -> (form: NoiseForm)
        ensures
            form == self.standard_form(noisy, freeze_nonlora),
    {
        if self == NoiserKind::Base || !noisy || freeze_nonlora {
            NoiseForm::Zero
        } else {
            NoiseForm::Dense
        }
    }

    /// The noise that enters the gradient of a parameter.
    pub fn update_noise(self, class: i32, freeze_nonlora: bool) -> (form: NoiseForm)
        ensures
            form == self.update_form(class, freeze_nonlora),
    {
        let dense = if freeze_nonlora {
            NoiseForm::Zero
        } else {
            NoiseForm::Dense
        };
        if self == NoiserKind::Base {
            NoiseForm::Zero
        } else if class == 0 {
            dense
        } else if class == 1 {
            match self {
                NoiserKind::OpenES => dense,
                NoiserKind::Sparse => NoiseForm::Sparse,
                _ => NoiseForm::Lora,
            }
        } else {
            NoiseForm::Zero
        }
    }

    /// Whether the noiser can look up embeddings: only the identity noiser can.
    pub fn embeds(self) -> (b: bool)
        ensures
            b == (self == NoiserKind::Base),
    {
        self == NoiserKind::Base
    }

    /// Whether an iteration keeps its noise.
    pub fn keep(self, info: &IterInfo, group_size: i32) -> (b: bool)
        ensures
            b == self.keeps(*info, group_size),
    {
        self != NoiserKind::EggRollBS || mask(info, group_size)
    }
}

/// [`AltEggRoll`] draws exactly the noise of [`EggRoll`], in products, in parameters that are used
/// as they are, and in gradients.
pub proof fn alt_eggroll_draws_like_eggroll(
    noisy: bool,
    frozen: bool,
    class: i32,
    info: IterInfo,
    group_size: i32,
)
    ensures
        NoiserKind::AltEggRoll.product_form(noisy) == NoiserKind::EggRoll.product_form(noisy),
        NoiserKind::AltEggRoll.standard_form(noisy, frozen) == NoiserKind::EggRoll.standard_form(
            noisy,
            frozen,
        ),
        NoiserKind::AltEggRoll.update_form(class, frozen) == NoiserKind::EggRoll.update_form(
            class,
            frozen,
        ),
        NoiserKind::AltEggRoll.keeps(info, group_size) == NoiserKind::EggRoll.keeps(
            info,
            group_size,
        ),
{
}

/// Without an iteration no noiser adds noise, and the identity noiser never does.
pub proof fn no_noise_without_an_iteration(kind: NoiserKind, noisy: bool, frozen: bool, class: i32)
    ensures
        kind.product_form(false) == NoiseForm::Zero,
        kind.standard_form(false, frozen) == NoiseForm::Zero,
        NoiserKind::Base.product_form(noisy) == NoiseForm::Zero,
        NoiserKind::Base.standard_form(noisy, frozen) == NoiseForm::Zero,
        NoiserKind::Base.update_form(class, frozen) == NoiseForm::Zero,
{
}

// ---------------------------------------------------------------------------
// Drawing
// ---------------------------------------------------------------------------
/// A drawn perturbation.
pub enum Noise<T> {
    /// None.
    Zero,
    /// One number per element.
    Dense(Vec<T>),
    /// Two factors.
    Lora(LoraNoise<T>),
    /// Numbers at some coordinates.
    Sparse(SparseNoise<T>),
}

/// A perturbation as mathematical values.
#[verifier::ext_equal]
pub enum NoiseView<T> {
    /// None.
    Zero,
    /// One number per element.
    Dense(Seq<T>),
    /// Two factors.
    Lora(Seq<T>, Seq<T>),
    /// Numbers, their rows and their columns.
    Sparse(Seq<T>, Seq<i32>, Seq<i32>),
}

impl<T> View for Noise<T> {
    type V = NoiseView<T>;

    open spec fn view(&self) -> NoiseView<T> {
        match self {
            Noise::Zero => NoiseView::Zero,
            Noise::Dense(values) => NoiseView::Dense(values@),
            Noise::Lora(factors) => NoiseView::Lora(factors.a@, factors.b@),
            Noise::Sparse(points) => NoiseView::Sparse(points.values@, points.idxa@, points.idxb@),
        }
    }
}

/// A perturbation of the given values.
pub open spec fn noise_of<T>(v: NoiseView<T>) -> Noise<T> {
    choose|noise: Noise<T>| noise@ == v
}

/// Whether `f`, given a perturbation between two other arguments, accepts every argument and
/// gives one result for the values of the perturbation and the other arguments.
pub open spec fn reads_noise<A, T, B, R, F: Fn(&A, &Noise<T>, &B) -> R>(f: F) -> bool {
    &&& computes3::<A, Noise<T>, B, R, F>(f)
    &&& forall|a: A, n1: Noise<T>, n2: Noise<T>, b: B|
        n1@ == n2@ ==> #[trigger] value3::<A, Noise<T>, B, R, F>(f, a, n1, b)
            == #[trigger] value3::<A, Noise<T>, B, R, F>(f, a, n2, b)
}

/// The result of `f` on a perturbation of the given values between two other arguments.
pub open spec fn with_noise<A, T, B, R, F: Fn(&A, &Noise<T>, &B) -> R>(
    f: F,
    a: A,
    noise: NoiseView<T>,
    b: B,
) -> R {
    value3::<A, Noise<T>, B, R, F>(f, a, noise_of(noise), b)
}

/// Applies `f` to a perturbation between two other arguments.
pub fn apply_noise<A, T, B, R, F: Fn(&A, &Noise<T>, &B) -> R>(
    f: &F,
    a: &A,
    noise: &Noise<T>,
    b: &B,
) -> (r: R)
    requires
        reads_noise::<A, T, B, R, F>(*f),
    ensures
        r == with_noise::<A, T, B, R, F>(*f, *a, noise@, *b),
{
    proof {
        assert(noise_of(noise@)@ == noise@);
    }
    apply3(f, a, noise, b)
}

/// The operations that make noise of normal numbers.
pub struct NoiseOps<N, D, L, B, H> {
    /// A normal number of two unit draws.
    pub normal: N,
    /// Gives dense and sparse noise its sign and scale.
    pub scaled: D,
    /// Gives the first factor of low-rank noise its sign.
    pub signed: L,
    /// Scales the first factor of low-rank noise.
    pub scale: B,
    /// Silences a number.
    pub hushed: H,
}

/// Whether noise of this form can be drawn for a parameter of this shape.
pub open spec fn drawable(form: NoiseForm, shape: [usize; 2], rank: usize) -> bool {
    let (a, b) = (shape@[0], shape@[1]);
    match form {
        NoiseForm::Zero => true,
        NoiseForm::Dense => a * b <= usize::MAX,
        NoiseForm::Lora => lora_fits(a, b, rank),
        NoiseForm::Sparse => (b > 0 || a == 0) && a * b <= i32::MAX && a <= i32::MAX && b
            <= i32::MAX,
    }
}

/// Tells whether noise of this form can be drawn for a parameter of this shape.
pub fn can_draw(form: NoiseForm, shape: [usize; 2], rank: usize) -> (ok: bool)
    ensures
        ok == drawable(form, shape, rank),
{
    let a: usize = shape[0];
    let b: usize = shape[1];
    match form {
        NoiseForm::Zero => true,
        NoiseForm::Dense => a.checked_mul(b).is_some(),
        NoiseForm::Lora => can_fit_lora(a, b, rank),
        NoiseForm::Sparse => {
            let limit: usize = 0x7fff_ffff;
            match a.checked_mul(b) {
                Some(elems) => (b > 0 || a == 0) && elems <= limit && a <= limit && b <= limit,
                None => false,
            }
        },
    }
}

impl<N, D, L, B, H> NoiseOps<N, D, L, B, H> {
    /// Each operation gives one result for each argument.
    pub open spec fn valid<T>(&self) -> bool where
        N: Fn((u32, u32)) -> T,
        D: Fn((i32, T)) -> T,
        L: Fn((i32, T)) -> T,
        B: Fn(T) -> T,
        H: Fn(T) -> T,
     {
        &&& computes::<(u32, u32), T, N>(self.normal)
        &&& computes::<(i32, T), T, D>(self.scaled)
        &&& computes::<(i32, T), T, L>(self.signed)
        &&& computes::<T, T, B>(self.scale)
        &&& computes::<T, T, H>(self.hushed)
    }

    /// The noise of a form that a noiser draws for a parameter and an iteration.
    pub open spec fn drawn<T>(
        &self,
        form: NoiseForm,
        keep: bool,
        key: u64,
        shape: [usize; 2],
        info: IterInfo,
        noise_reuse: i32,
        rank: usize,
    ) -> NoiseView<T> where
        N: Fn((u32, u32)) -> T,
        D: Fn((i32, T)) -> T,
        L: Fn((i32, T)) -> T,
        B: Fn(T) -> T,
        H: Fn(T) -> T,
     {
        let (a, b) = (shape@[0], shape@[1]);
        match form {
            NoiseForm::Zero => NoiseView::Zero,
            NoiseForm::Dense => NoiseView::Dense(
                dense_noise::<T, N, D, H>(
                    self.normal,
                    self.scaled,
                    self.hushed,
                    key,
                    info,
                    (a * b) as nat,
                    noise_reuse,
                    keep,
                ),
            ),
            NoiseForm::Lora => NoiseView::Lora(
                lora_a::<T, N, L, B, H>(
                    self.normal,
                    self.signed,
                    self.scale,
                    self.hushed,
                    key,
                    info,
                    a as nat,
                    b as nat,
                    rank as nat,
                    noise_reuse,
                    keep,
                ),
                lora_b::<T, N, H>(
                    self.normal,
                    self.hushed,
                    key,
                    info,
                    b as nat,
                    rank as nat,
                    noise_reuse,
                    keep,
                ),
            ),
            NoiseForm::Sparse => NoiseView::Sparse(
                sparse_values::<T, N, D>(
                    self.normal,
                    self.scaled,
                    key,
                    info,
                    a as int,
                    b as int,
                    noise_reuse,
                ),
                sparse_rows(stream_of(key, info, noise_reuse), a as int, b as int),
                sparse_columns(stream_of(key, info, noise_reuse), a as int, b as int),
            ),
        }
    }

    /// Draws noise of a form for a parameter and an iteration.
    pub fn draw<T: Copy>(
        &self,
        form: NoiseForm,
        keep: bool,
        key: u64,
        shape: [usize; 2],
        info: &IterInfo,
        noise_reuse: i32,
        rank: usize,
    ) -> (noise: Noise<T>) where
        N: Fn((u32, u32)) -> T,
        D: Fn((i32, T)) -> T,
        L: Fn((i32, T)) -> T,
        B: Fn(T) -> T,
        H: Fn(T) -> T,

        requires
            self.valid::<T>(),
            reuse_valid(*info, noise_reuse),
            drawable(form, shape, rank),
        ensures
            noise@ == self.drawn::<T>(form, keep, key, shape, *info, noise_reuse, rank),
    {
        let a: usize = shape[0];
        let b: usize = shape[1];
        match form {
            NoiseForm::Zero => Noise::Zero,
            NoiseForm::Dense => Noise::Dense(
                get_nonlora_update_params(
                    key,
                    info,
                    a * b,
                    noise_reuse,
                    keep,
                    &self.normal,
                    &self.scaled,
                    &self.hushed,
                ),
            ),
            NoiseForm::Lora => Noise::Lora(
                get_lora_update_params(
                    key,
                    rank,
                    info,
                    a,
                    b,
                    noise_reuse,
                    keep,
                    &self.normal,
                    &self.signed,
                    &self.scale,
                    &self.hushed,
                ),
            ),
            NoiseForm::Sparse => Noise::Sparse(
                get_sparse_update_params(
                    key,
                    info,
                    a,
                    b,
                    noise_reuse,
                    &self.normal,
                    &self.scaled,
                ),
            ),
        }
    }
}

} // verus!
