//! What optimizer steps are for: the laws of several steps, and of one step in
//! exact arithmetic.

use vstd::prelude::*;

use crate::ops::{mapped2, value3, value4};
use crate::reals::{cancel, quotient_times, real_sum, times_one};
use crate::solver::{AdamRule, MomentState, Solver, SolverOps, Stepped};

verus! {

/// The settings of Adam, or of AdamW where there is a weight decay.
pub struct AdamSettings<S> {
    /// Learning rate.
    pub lr: S,
    /// Decay of the first moment.
    pub beta1: S,
    /// Decay of the second moment.
    pub beta2: S,
    /// Added to the denominator.
    pub eps: S,
    /// Weight decay.
    pub weight_decay: Option<S>,
}

impl<S> AdamSettings<S> {
    /// The optimizer with these settings.
    pub open spec fn solver(self) -> Solver<S> {
        let AdamSettings { lr, beta1, beta2, eps, weight_decay } = self;
        match weight_decay {
            None => Solver::Adam { lr, beta1, beta2, eps },
            Some(weight_decay) => Solver::AdamW { lr, beta1, beta2, eps, weight_decay },
        }
    }
}

/// `start` after `f` with a decay took in the first `n` of some gradients.
pub open spec fn decayed<P, S, F: Fn(&P, &P, &S) -> P>(
    f: F,
    start: P,
    grads: Seq<P>,
    decay: S,
    n: nat,
) -> P
    decreases n,
{
    if n == 0 {
        start
    } else {
        value3::<P, P, S, P, F>(
            f,
            decayed::<P, S, F>(f, start, grads, decay, (n - 1) as nat),
            grads[n - 1],
            decay,
        )
    }
}

/// `b` to the power of `n`.
pub open spec fn power(b: real, n: nat) -> real
    decreases n,
{
    if n == 0 {
        1real
    } else {
        b * power(b, (n - 1) as nat)
    }
}

/// Powers of a number below one are below one.
proof fn powers_shrink(b: real, n: nat)
    requires
        0real <= b < 1real,
    ensures
        0real <= power(b, n) <= 1real,
        n > 0 ==> power(b, n) < 1real,
    decreases n,
{
    if n > 0 {
        powers_shrink(b, (n - 1) as nat);
        let p = power(b, (n - 1) as nat);
        assert(0real <= b * p < 1real) by (nonlinear_arith)
            requires
                0real <= b < 1real,
                0real <= p <= 1real,
        ;
    }
}

/// The gradients of parameter `i` in each step.
pub open spec fn course<P>(grads: Seq<Seq<P>>, i: int) -> Seq<P> {
    grads.map_values(|g: Seq<P>| g[i])
}

impl<G, D, E, A, C> SolverOps<G, D, E, A, C> {
    /// The parameters, the step count and the moments after `n` steps, each with its gradients.
    pub open spec fn steps_after<P, S>(
        &self,
        solver: Solver<S>,
        at: Stepped<P>,
        grads: Seq<Seq<P>>,
        n: nat,
    ) -> Stepped<P> where
        G: Fn(&P, &P, &S) -> P,
        D: Fn(&P, &P, &S) -> P,
        E: Fn(&P, &P, &S) -> P,
        A: Fn(&P, &P, &P, &AdamRule<S>) -> P,
        C: Fn(&Vec<P>, &S) -> Vec<P>,
        decreases n,
    {
        if n == 0 {
            at
        } else {
            let before = self.steps_after::<P, S>(solver, at, grads, (n - 1) as nat);
            self.step::<P, S>(solver, before.params, grads[n - 1], before.step, before.moments)
        }
    }

    /// Steps count: `n` steps of an optimizer that keeps moments count `n`, those of another none;
    /// parameters and moments keep their number.
    pub proof fn steps_count<P, S>(
        &self,
        solver: Solver<S>,
        at: Stepped<P>,
        grads: Seq<Seq<P>>,
        n: nat,
    ) where
        G: Fn(&P, &P, &S) -> P,
        D: Fn(&P, &P, &S) -> P,
        E: Fn(&P, &P, &S) -> P,
        A: Fn(&P, &P, &P, &AdamRule<S>) -> P,
        C: Fn(&Vec<P>, &S) -> Vec<P>,

        requires
            i32::MIN <= at.step,
            at.step + n <= i32::MAX,
            n <= grads.len(),
            forall|k: int| 0 <= k < grads.len() ==> (#[trigger] grads[k]).len() >= at.params.len(),
            !(solver is TrustRegion),
        ensures
            ({
                let now = self.steps_after::<P, S>(solver, at, grads, n);
                &&& now.step == (if solver.keeps_moments() {
                    at.step + n
                } else {
                    at.step
                })
                &&& now.params.len() == at.params.len()
                &&& now.moments.len() == at.moments.len()
            }),
        decreases n,
    {
        if n > 0 {
            self.steps_count::<P, S>(solver, at, grads, (n - 1) as nat);
            let before = self.steps_after::<P, S>(solver, at, grads, (n - 1) as nat);
            self.one_call_is_one_step::<P, S>(
                solver,
                before.params,
                grads[n - 1],
                before.step,
                before.moments,
            );
        }
    }

    /// Moments follow their own gradients: after any number of Adam or AdamW steps, the first
    /// moment of a parameter is what `first` with the first decay makes of the parameter's
    /// gradients, one by one, whatever `second` does; and the second moment is what `second` with
    /// the second decay makes of them.
    pub proof fn moments_follow_their_gradients<P, S>(
        &self,
        adam: AdamSettings<S>,
        at: Stepped<P>,
        grads: Seq<Seq<P>>,
        n: nat,
        i: int,
    ) where
        G: Fn(&P, &P, &S) -> P,
        D: Fn(&P, &P, &S) -> P,
        E: Fn(&P, &P, &S) -> P,
        A: Fn(&P, &P, &P, &AdamRule<S>) -> P,
        C: Fn(&Vec<P>, &S) -> Vec<P>,

        requires
            i32::MIN <= at.step,
            at.step + n <= i32::MAX,
            n <= grads.len(),
            forall|k: int| 0 <= k < grads.len() ==> (#[trigger] grads[k]).len() >= at.params.len(),
            0 <= i < at.params.len() <= at.moments.len(),
        ensures
            ({
                let now = self.steps_after::<P, S>(adam.solver(), at, grads, n).moments[i];
                let own = course(grads, i);
                &&& now.m == decayed::<P, S, D>(self.first, at.moments[i].m, own, adam.beta1, n)
                &&& now.v == decayed::<P, S, E>(self.second, at.moments[i].v, own, adam.beta2, n)
            }),
        decreases n,
    {
        if n > 0 {
            self.moments_follow_their_gradients::<P, S>(adam, at, grads, (n - 1) as nat, i);
            self.steps_count::<P, S>(adam.solver(), at, grads, (n - 1) as nat);
            assert(grads[n - 1].len() >= at.params.len());
        }
    }

    /// What has no gradient is left alone: a step moves the moments of no parameter without a
    /// gradient, and gives back the parameters that have one.
    pub proof fn idle_moments_stay<P, S>(
        &self,
        adam: AdamSettings<S>,
        at: Stepped<P>,
        grads: Seq<P>,
        i: int,
    ) where
        G: Fn(&P, &P, &S) -> P,
        D: Fn(&P, &P, &S) -> P,
        E: Fn(&P, &P, &S) -> P,
        A: Fn(&P, &P, &P, &AdamRule<S>) -> P,
        C: Fn(&Vec<P>, &S) -> Vec<P>,

        requires
            0 <= i < at.moments.len(),
            i >= grads.len() || i >= at.params.len(),
        ensures
            ({
                let next = self.step::<P, S>(
                    adam.solver(),
                    at.params,
                    grads,
                    at.step,
                    at.moments,
                );
                &&& next.moments[i] == at.moments[i]
                &&& next.params.len() <= grads.len()
                &&& next.params.len() <= at.params.len()
                &&& next.params.len() == grads.len() || next.params.len() == at.params.len()
            }),
    {
    }

    /// Parameters follow their own gradients: two courses of steps with the same gradients of a
    /// parameter give the same parameter, whatever the gradients and the values of the others are.
    pub proof fn parameters_follow_their_gradients<P, S>(
        &self,
        solver: Solver<S>,
        at: Stepped<P>,
        other: Stepped<P>,
        grads: Seq<Seq<P>>,
        other_grads: Seq<Seq<P>>,
        n: nat,
        i: int,
    ) where
        G: Fn(&P, &P, &S) -> P,
        D: Fn(&P, &P, &S) -> P,
        E: Fn(&P, &P, &S) -> P,
        A: Fn(&P, &P, &P, &AdamRule<S>) -> P,
        C: Fn(&Vec<P>, &S) -> Vec<P>,

        requires
            !(solver is TrustRegion),
            i32::MIN <= at.step == other.step,
            at.step + n <= i32::MAX,
            n <= grads.len(),
            n <= other_grads.len(),
            forall|k: int| 0 <= k < grads.len() ==> (#[trigger] grads[k]).len() >= at.params.len(),
            forall|k: int|
                0 <= k < other_grads.len() ==> (#[trigger] other_grads[k]).len()
                    >= other.params.len(),
            0 <= i < at.params.len(),
            i < other.params.len(),
            solver.keeps_moments() ==> at.params.len() <= at.moments.len() && other.params.len()
                <= other.moments.len() && at.moments[i] == other.moments[i],
            at.params[i] == other.params[i],
            forall|k: int| 0 <= k < n ==> #[trigger] grads[k][i] == other_grads[k][i],
        ensures
            self.steps_after::<P, S>(solver, at, grads, n).params[i] == self.steps_after::<P, S>(
                solver,
                other,
                other_grads,
                n,
            ).params[i],
            solver.keeps_moments() ==> self.steps_after::<P, S>(solver, at, grads, n).moments[i]
                == self.steps_after::<P, S>(solver, other, other_grads, n).moments[i],
        decreases n,
    {
        if n > 0 {
            let m = (n - 1) as nat;
            self.parameters_follow_their_gradients::<P, S>(
                solver,
                at,
                other,
                grads,
                other_grads,
                m,
                i,
            );
            self.steps_count::<P, S>(solver, at, grads, m);
            self.steps_count::<P, S>(solver, other, other_grads, m);
            assert(grads[n - 1][i] == other_grads[n - 1][i]);
            assert(grads[n - 1].len() >= at.params.len());
            assert(other_grads[n - 1].len() >= other.params.len());
        }
    }

    /// Whether plain steps are exact in a coordinate: a step goes against the gradient, by the
    /// learning rate.
    pub open spec fn descends_exactly<P, S>(
        &self,
        worth: spec_fn(P) -> real,
        scalar: spec_fn(S) -> real,
    ) -> bool where G: Fn(&P, &P, &S) -> P {
        forall|p: P, g: P, lr: S| #[trigger]
            worth(value3::<P, P, S, P, G>(self.sgd, p, g, lr)) == worth(p) - scalar(lr) * worth(g)
    }

    /// Plain steps add up: with exact arithmetic, a parameter has moved by the learning rate times
    /// the sum of its gradients, against them.
    pub proof fn plain_steps_add_up<P, S>(
        &self,
        lr: S,
        at: Stepped<P>,
        grads: Seq<Seq<P>>,
        n: nat,
        i: int,
        worth: spec_fn(P) -> real,
        scalar: spec_fn(S) -> real,
    ) where
        G: Fn(&P, &P, &S) -> P,
        D: Fn(&P, &P, &S) -> P,
        E: Fn(&P, &P, &S) -> P,
        A: Fn(&P, &P, &P, &AdamRule<S>) -> P,
        C: Fn(&Vec<P>, &S) -> Vec<P>,

        requires
            self.descends_exactly::<P, S>(worth, scalar),
            i32::MIN <= at.step,
            at.step + n <= i32::MAX,
            n <= grads.len(),
            forall|k: int| 0 <= k < grads.len() ==> (#[trigger] grads[k]).len() >= at.params.len(),
            0 <= i < at.params.len(),
        ensures
            ({
                let now = self.steps_after::<P, S>(Solver::Sgd { lr }, at, grads, n);
                let moves = course(grads, i).take(n as int).map_values(worth);
                &&& worth(at.params[i]) - worth(now.params[i]) == scalar(lr) * real_sum(moves)
                &&& now.step == at.step
                &&& now.moments == at.moments
            }),
        decreases n,
    {
        let l = scalar(lr);
        let own = course(grads, i);
        if n == 0 {
            times_one(l);
            assert(own.take(0).map_values(worth) =~= Seq::empty());
        } else {
            let m = (n - 1) as nat;
            self.plain_steps_add_up::<P, S>(lr, at, grads, m, i, worth, scalar);
            self.steps_count::<P, S>(Solver::Sgd { lr }, at, grads, m);
            assert(grads[n - 1].len() >= at.params.len());
            let moves = own.take(n as int).map_values(worth);
            assert(moves.drop_last() =~= own.take(m as int).map_values(worth));
            let (s, g) = (real_sum(moves.drop_last()), worth(grads[n - 1][i]));
            assert(l * (s + g) == l * s + l * g) by (nonlinear_arith);
        }
    }

    /// Whether Adam is exact in a coordinate: moments are decaying means of the gradients and of
    /// their squares, and a step goes against the first moment, over the root of the second, both
    /// corrected for the number of the step; weight decay adds its share of the parameter.
    pub open spec fn adapts_exactly<P, S>(
        &self,
        worth: spec_fn(P) -> real,
        scalar: spec_fn(S) -> real,
        root: spec_fn(real) -> real,
    ) -> bool where
        D: Fn(&P, &P, &S) -> P,
        E: Fn(&P, &P, &S) -> P,
        A: Fn(&P, &P, &P, &AdamRule<S>) -> P,
     {
        &&& forall|m: P, g: P, b: S| #[trigger]
            worth(value3::<P, P, S, P, D>(self.first, m, g, b)) == scalar(b) * worth(m) + (1real
                - scalar(b)) * worth(g)
        &&& forall|v: P, g: P, b: S| #[trigger]
            worth(value3::<P, P, S, P, E>(self.second, v, g, b)) == scalar(b) * worth(v) + (1real
                - scalar(b)) * (worth(g) * worth(g))
        &&& forall|p: P, m: P, v: P, rule: AdamRule<S>|
            rule.step >= 1 ==> {
                let m_hat = worth(m) / (1real - power(scalar(rule.beta1), rule.step as nat));
                let v_hat = worth(v) / (1real - power(scalar(rule.beta2), rule.step as nat));
                let grown = match rule.weight_decay {
                    Some(d) => worth(p) + scalar(d) * worth(p),
                    None => worth(p),
                };
                (grown - #[trigger] worth(
                    value4::<P, P, P, AdamRule<S>, P, A>(self.adam, p, m, v, rule),
                )) * (root(v_hat) + scalar(rule.eps)) == scalar(rule.lr) * m_hat
            }
    }

    /// Equal gradients: with exact arithmetic and from zero moments, `n` steps with one gradient
    /// `g` of a parameter make the first moment `(1 - beta1^n) g` and the second one
    /// `(1 - beta2^n) g^2`. The last step moves the parameter by `lr * g / (|g| + eps)` against the
    /// gradient, whatever `n` is, where `|g|` is the root of `g^2`; weight decay adds its share.
    pub proof fn equal_gradients_move_evenly<P, S>(
        &self,
        adam: AdamSettings<S>,
        at: Stepped<P>,
        grads: Seq<Seq<P>>,
        n: nat,
        i: int,
        g: real,
        worth: spec_fn(P) -> real,
        scalar: spec_fn(S) -> real,
        root: spec_fn(real) -> real,
    ) where
        G: Fn(&P, &P, &S) -> P,
        D: Fn(&P, &P, &S) -> P,
        E: Fn(&P, &P, &S) -> P,
        A: Fn(&P, &P, &P, &AdamRule<S>) -> P,
        C: Fn(&Vec<P>, &S) -> Vec<P>,

        requires
            self.adapts_exactly::<P, S>(worth, scalar, root),
            0real <= scalar(adam.beta1) < 1real,
            0real <= scalar(adam.beta2) < 1real,
            at.step == 0,
            n <= i32::MAX,
            n <= grads.len(),
            forall|k: int| 0 <= k < grads.len() ==> (#[trigger] grads[k]).len() >= at.params.len(),
            0 <= i < at.params.len() <= at.moments.len(),
            worth(at.moments[i].m) == 0real,
            worth(at.moments[i].v) == 0real,
            forall|k: int| 0 <= k < n ==> worth((#[trigger] grads[k])[i]) == g,
        ensures
            ({
                let now = self.steps_after::<P, S>(adam.solver(), at, grads, n);
                &&& worth(now.moments[i].m) == (1real - power(scalar(adam.beta1), n)) * g
                &&& worth(now.moments[i].v) == (1real - power(scalar(adam.beta2), n)) * (g * g)
                &&& n > 0 ==> ({
                    let m = (n - 1) as nat;
                    let p = worth(self.steps_after::<P, S>(adam.solver(), at, grads, m).params[i]);
                    let grown = match adam.weight_decay {
                        Some(d) => p + scalar(d) * p,
                        None => p,
                    };
                    (grown - worth(now.params[i])) * (root(g * g) + scalar(adam.eps)) == scalar(
                        adam.lr,
                    ) * g
                })
            }),
        decreases n,
    {
        let (b1, b2) = (scalar(adam.beta1), scalar(adam.beta2));
        let sq = g * g;
        if n == 0 {
            times_one(g);
            times_one(sq);
        } else {
            let m = (n - 1) as nat;
            self.equal_gradients_move_evenly::<P, S>(
                adam,
                at,
                grads,
                m,
                i,
                g,
                worth,
                scalar,
                root,
            );
            self.steps_count::<P, S>(adam.solver(), at, grads, m);
            assert(grads[m as int].len() >= at.params.len());
            assert(worth(grads[m as int][i]) == g);
            let now = self.steps_after::<P, S>(adam.solver(), at, grads, n);
            let (p1, p2) = (power(b1, m), power(b2, m));
            assert(b1 * ((1real - p1) * g) + (1real - b1) * g == (1real - b1 * p1) * g)
                by (nonlinear_arith);
            assert(b2 * ((1real - p2) * sq) + (1real - b2) * sq == (1real - b2 * p2) * sq)
                by (nonlinear_arith);
            powers_shrink(b1, n);
            powers_shrink(b2, n);
            let (c1, c2) = (1real - power(b1, n), 1real - power(b2, n));
            let (wm, wv) = (worth(now.moments[i].m), worth(now.moments[i].v));
            quotient_times(wm, c1);
            quotient_times(wv, c2);
            assert(wm == g * c1) by (nonlinear_arith)
                requires
                    wm == c1 * g,
            ;
            assert(wv == sq * c2) by (nonlinear_arith)
                requires
                    wv == c2 * sq,
            ;
            cancel(wm / c1, g, c1);
            cancel(wv / c2, sq, c2);
            let before = self.steps_after::<P, S>(adam.solver(), at, grads, m);
            let rule = AdamRule {
                step: n as i32,
                lr: adam.lr,
                beta1: adam.beta1,
                beta2: adam.beta2,
                eps: adam.eps,
                weight_decay: adam.weight_decay,
            };
            let (pm, pv) = (now.moments[i].m, now.moments[i].v);
            assert(now.params[i] == value4::<P, P, P, AdamRule<S>, P, A>(
                self.adam,
                before.params[i],
                pm,
                pv,
                rule,
            ));
            assert(rule.step as nat == n);
        }
    }

    /// A bound that does not bind changes nothing: where clipping leaves the gradients, a clipped
    /// step is a step of the optimizer behind the clip.
    pub proof fn idle_clipping_changes_nothing<P, S>(
        &self,
        max_norm: S,
        inner: Box<Solver<S>>,
        params: Seq<P>,
        grads: Seq<P>,
        step: int,
        moments: Seq<MomentState<P>>,
    ) where
        G: Fn(&P, &P, &S) -> P,
        D: Fn(&P, &P, &S) -> P,
        E: Fn(&P, &P, &S) -> P,
        A: Fn(&P, &P, &P, &AdamRule<S>) -> P,
        C: Fn(&Vec<P>, &S) -> Vec<P>,

        requires
            mapped2::<P, S, P, C>(self.clip, grads, max_norm) == grads,
        ensures
            self.step::<P, S>(
                Solver::TrustRegion { max_norm, inner },
                params,
                grads,
                step,
                moments,
            ) == self.step::<P, S>(*inner, params, grads, step, moments),
    {
    }

    /// Clipping shortens the step: where clipping scales all gradients by one factor, a clipped
    /// plain step moves every parameter by the learning rate times that factor times its gradient.
    pub proof fn clipping_shortens_the_step<P, S>(
        &self,
        max_norm: S,
        lr: S,
        params: Seq<P>,
        grads: Seq<P>,
        step: int,
        moments: Seq<MomentState<P>>,
        factor: real,
        i: int,
        worth: spec_fn(P) -> real,
        scalar: spec_fn(S) -> real,
    ) where
        G: Fn(&P, &P, &S) -> P,
        D: Fn(&P, &P, &S) -> P,
        E: Fn(&P, &P, &S) -> P,
        A: Fn(&P, &P, &P, &AdamRule<S>) -> P,
        C: Fn(&Vec<P>, &S) -> Vec<P>,

        requires
            self.descends_exactly::<P, S>(worth, scalar),
            0 <= i < params.len() <= grads.len(),
            mapped2::<P, S, P, C>(self.clip, grads, max_norm).len() == grads.len(),
            forall|k: int|
                0 <= k < grads.len() ==> worth(
                    #[trigger] mapped2::<P, S, P, C>(self.clip, grads, max_norm)[k],
                ) == factor * worth(grads[k]),
        ensures
            worth(params[i]) - worth(
                self.step::<P, S>(
                    Solver::TrustRegion { max_norm, inner: Box::new(Solver::Sgd { lr }) },
                    params,
                    grads,
                    step,
                    moments,
                ).params[i],
            ) == scalar(lr) * (factor * worth(grads[i])),
    {
        let clipped = mapped2::<P, S, P, C>(self.clip, grads, max_norm);
        reveal_with_fuel(SolverOps::step, 3);
        assert(worth(clipped[i]) == factor * worth(grads[i]));
    }
}

} // verus!
