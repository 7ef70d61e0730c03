//! The optimizer: plain gradient descent, Adam, AdamW, and clipping by the
//! global norm in front of any of them.
//!
//! The optimizer decides what is updated, in which order and with which
//! constants. The arithmetic on scalars `S` and parameters `P` is handed in.

use vstd::prelude::*;

use crate::ops::{
    apply1, apply3, apply4, computes1, computes3, computes4, map2, mapped2, maps2, value1, value3,
    value4,
};

verus! {

/// Optimizer configuration.
#[derive(Debug)]
pub enum Solver<S> {
    /// Plain gradient descent.
    Sgd {
        /// Learning rate.
        lr: S,
    },
    /// Adam.
    Adam {
        /// Learning rate.
        lr: S,
        /// Decay of the first moment.
        beta1: S,
        /// Decay of the second moment.
        beta2: S,
        /// Added to the denominator.
        eps: S,
    },
    /// Adam with decoupled weight decay.
    AdamW {
        /// Learning rate.
        lr: S,
        /// Decay of the first moment.
        beta1: S,
        /// Decay of the second moment.
        beta2: S,
        /// Added to the denominator.
        eps: S,
        /// Weight decay.
        weight_decay: S,
    },
    /// Clips the gradients by their global norm, then applies another optimizer.
    TrustRegion {
        /// The bound of the global norm.
        max_norm: S,
        /// The optimizer behind the clip.
        inner: Box<Solver<S>>,
    },
}

/// The moments of a parameter.
#[derive(Clone, Debug)]
pub struct MomentState<P> {
    /// The first moment.
    pub m: P,
    /// The second moment.
    pub v: P,
}

/// The state of an optimizer.
#[derive(Clone, Debug)]
pub struct OptimizerState<P> {
    /// How many steps were taken.
    pub step: i32,
    /// The moments of each parameter; none for an optimizer that keeps no moments.
    pub moments: Vec<MomentState<P>>,
}

/// The constants of one Adam step.
#[derive(Clone, Copy, Debug)]
pub struct AdamRule<S> {
    /// The number of the step, from one.
    pub step: i32,
    /// Learning rate.
    pub lr: S,
    /// Decay of the first moment.
    pub beta1: S,
    /// Decay of the second moment.
    pub beta2: S,
    /// Added to the denominator.
    pub eps: S,
    /// Weight decay, for AdamW.
    pub weight_decay: Option<S>,
}

/// The arithmetic of an optimizer.
pub struct SolverOps<G, D, E, A, C> {
    /// A parameter after a plain step, of the parameter, its gradient and the learning rate.
    pub sgd: G,
    /// The next first moment, of the last one, the gradient and its decay.
    pub first: D,
    /// The next second moment, of the last one, the gradient and its decay.
    pub second: E,
    /// A parameter after an Adam step, of the parameter, its two moments and the constants.
    pub adam: A,
    /// The clipped gradients, of the gradients and the bound of their norm.
    pub clip: C,
}

impl<S> Solver<S> {
    /// A plain gradient-descent optimizer.
    pub fn sgd(lr: S) -> (solver: Self)
        ensures
            solver == (Solver::Sgd { lr }),
    {
        Solver::Sgd { lr }
    }

    /// Whether the optimizer keeps moments.
    pub open spec fn keeps_moments(&self) -> bool
        decreases self,
    {
        match self {
            Solver::Sgd { .. } => false,
            Solver::Adam { .. } => true,
            Solver::AdamW { .. } => true,
            Solver::TrustRegion { inner, .. } => inner.keeps_moments(),
        }
    }

    /// Tells whether the optimizer keeps moments.
    pub fn has_moments(&self) -> (b: bool)
        ensures
            b == self.keeps_moments(),
        decreases self,
    {
        match self {
            Solver::Sgd { .. } => false,
            Solver::TrustRegion { inner, .. } => inner.has_moments(),
            _ => true,
        }
    }

    /// The first state of an optimizer: no steps, and zero moments for every parameter where the
    /// optimizer keeps any. `zeros` makes a zero of a parameter's shape.
    pub fn init_state<P, Z: Fn(&P) -> P>(&self, params: &[P], zeros: &Z) -> (state: OptimizerState<
        P,
    >)
        requires
            computes1::<P, P, Z>(*zeros),
        ensures
            state.step == 0,
            state.moments@.len() == (if self.keeps_moments() {
                params@.len()
            } else {
                0
            }),
            forall|i: int|
                0 <= i < state.moments@.len() ==> (#[trigger] state.moments@[i]) == (MomentState {
                    m: value1::<P, P, Z>(*zeros, params@[i]),
                    v: value1::<P, P, Z>(*zeros, params@[i]),
                }),
        decreases self,
    {
        match self {
            Solver::Sgd { .. } => OptimizerState { step: 0, moments: Vec::new() },
            Solver::TrustRegion { inner, .. } => inner.init_state(params, zeros),
            _ => {
                let mut moments: Vec<MomentState<P>> = Vec::with_capacity(params.len());
                let mut i: usize = 0;
                while i < params.len()
                    invariant
                        i <= params@.len(),
                        moments@.len() == i,
                        computes1::<P, P, Z>(*zeros),
                        forall|k: int|
                            0 <= k < i ==> (#[trigger] moments@[k]) == (MomentState {
                                m: value1::<P, P, Z>(*zeros, params@[k]),
                                v: value1::<P, P, Z>(*zeros, params@[k]),
                            }),
                    decreases params@.len() - i,
                {
                    moments.push(
                        MomentState { m: apply1(zeros, &params[i]), v: apply1(zeros, &params[i]) },
                    );
                    i = i + 1;
                }
                OptimizerState { step: 0, moments }
            },
        }
    }
}

impl<S: Copy> Solver<S> {
    /// Another optimizer with the same configuration.
    pub fn duplicate(&self) -> (copy: Self)
        ensures
            copy == *self,
        decreases self,
    {
        match self {
            Solver::Sgd { lr } => Solver::Sgd { lr: *lr },
            Solver::Adam { lr, beta1, beta2, eps } => Solver::Adam {
                lr: *lr,
                beta1: *beta1,
                beta2: *beta2,
                eps: *eps,
            },
            Solver::AdamW { lr, beta1, beta2, eps, weight_decay } => Solver::AdamW {
                lr: *lr,
                beta1: *beta1,
                beta2: *beta2,
                eps: *eps,
                weight_decay: *weight_decay,
            },
            Solver::TrustRegion { max_norm, inner } => Solver::TrustRegion {
                max_norm: *max_norm,
                inner: Box::new(inner.duplicate()),
            },
        }
    }
}

/// The shorter of two lengths.
pub open spec fn shorter(a: nat, b: nat) -> nat {
    if a < b {
        a
    } else {
        b
    }
}

/// What an optimizer step gives: the parameters, the step count and the moments.
#[verifier::ext_equal]
pub struct Stepped<P> {
    /// The updated parameters.
    pub params: Seq<P>,
    /// The step count.
    pub step: int,
    /// The moments.
    pub moments: Seq<MomentState<P>>,
}

impl<G, D, E, A, C> SolverOps<G, D, E, A, C> {
    /// Each operation gives one result for each argument, and clipping keeps every gradient.
    pub open spec fn valid<P, S>(&self) -> bool where
        G: Fn(&P, &P, &S) -> P,
        D: Fn(&P, &P, &S) -> P,
        E: Fn(&P, &P, &S) -> P,
        A: Fn(&P, &P, &P, &AdamRule<S>) -> P,
        C: Fn(&Vec<P>, &S) -> Vec<P>,
     {
        &&& computes3::<P, P, S, P, G>(self.sgd)
        &&& computes3::<P, P, S, P, D>(self.first)
        &&& computes3::<P, P, S, P, E>(self.second)
        &&& computes4::<P, P, P, AdamRule<S>, P, A>(self.adam)
        &&& maps2::<P, S, P, C>(self.clip)
        &&& forall|grads: Vec<P>, max_norm: S, clipped: Vec<P>| #[trigger]
            self.clip.ensures((&grads, &max_norm), clipped) ==> clipped@.len() == grads@.len()
    }

    /// The moments of a parameter after a step.
    pub open spec fn next_moments<P, S>(
        &self,
        old_moments: MomentState<P>,
        grad: P,
        rule: AdamRule<S>,
    ) -> MomentState<P> where
        D: Fn(&P, &P, &S) -> P,
        E: Fn(&P, &P, &S) -> P,
     {
        MomentState {
            m: value3::<P, P, S, P, D>(self.first, old_moments.m, grad, rule.beta1),
            v: value3::<P, P, S, P, E>(self.second, old_moments.v, grad, rule.beta2),
        }
    }

    /// An Adam step over all parameters.
    pub open spec fn adam_step<P, S>(
        &self,
        params: Seq<P>,
        grads: Seq<P>,
        moments: Seq<MomentState<P>>,
        rule: AdamRule<S>,
    ) -> Stepped<P> where
        D: Fn(&P, &P, &S) -> P,
        E: Fn(&P, &P, &S) -> P,
        A: Fn(&P, &P, &P, &AdamRule<S>) -> P,
     {
        let n = shorter(params.len(), grads.len());
        Stepped {
            params: Seq::new(
                n,
                |i: int|
                    {
                        let next = self.next_moments::<P, S>(moments[i], grads[i], rule);
                        value4::<P, P, P, AdamRule<S>, P, A>(
                            self.adam,
                            params[i],
                            next.m,
                            next.v,
                            rule,
                        )
                    },
            ),
            step: rule.step as int,
            moments: Seq::new(
                moments.len(),
                |i: int|
                    if i < n {
                        self.next_moments::<P, S>(moments[i], grads[i], rule)
                    } else {
                        moments[i]
                    },
            ),
        }
    }

    /// An optimizer step over all parameters.
    pub open spec fn step<P, S>(
        &self,
        solver: Solver<S>,
        params: Seq<P>,
        grads: Seq<P>,
        step: int,
        moments: Seq<MomentState<P>>,
    ) -> Stepped<P> where
        G: Fn(&P, &P, &S) -> P,
        D: Fn(&P, &P, &S) -> P,
        E: Fn(&P, &P, &S) -> P,
        A: Fn(&P, &P, &P, &AdamRule<S>) -> P,
        C: Fn(&Vec<P>, &S) -> Vec<P>,
        decreases solver,
    {
        match solver {
            Solver::Sgd { lr } => Stepped {
                params: Seq::new(
                    shorter(params.len(), grads.len()),
                    |i: int| value3::<P, P, S, P, G>(self.sgd, params[i], grads[i], lr),
                ),
                step,
                moments,
            },
            Solver::Adam { lr, beta1, beta2, eps } => self.adam_step::<P, S>(
                params,
                grads,
                moments,
                AdamRule { step: (step + 1) as i32, lr, beta1, beta2, eps, weight_decay: None },
            ),
            Solver::AdamW { lr, beta1, beta2, eps, weight_decay } => self.adam_step::<P, S>(
                params,
                grads,
                moments,
                AdamRule {
                    step: (step + 1) as i32,
                    lr,
                    beta1,
                    beta2,
                    eps,
                    weight_decay: Some(weight_decay),
                },
            ),
            Solver::TrustRegion { max_norm, inner } => self.step::<P, S>(
                *inner,
                params,
                mapped2::<P, S, P, C>(self.clip, grads, max_norm),
                step,
                moments,
            ),
        }
    }

    fn update_adam<P, S>(
        &self,
        params: &[P],
        grads: &Vec<P>,
        state: &mut OptimizerState<P>,
        rule: AdamRule<S>,
    ) -> (out: Vec<P>) where
        G: Fn(&P, &P, &S) -> P,
        D: Fn(&P, &P, &S) -> P,
        E: Fn(&P, &P, &S) -> P,
        A: Fn(&P, &P, &P, &AdamRule<S>) -> P,
        C: Fn(&Vec<P>, &S) -> Vec<P>,

        requires
            self.valid::<P, S>(),
            shorter(params@.len(), grads@.len()) <= old(state).moments@.len(),
        ensures
            ({
                let next = self.adam_step::<P, S>(
                    params@,
                    grads@,
                    old(state).moments@,
                    rule,
                );
                &&& out@ == next.params
                &&& final(state).moments@ == next.moments
                &&& final(state).step == rule.step
            }),
    {
        let ghost before = state.moments@;
        let ghost next = self.adam_step::<P, S>(params@, grads@, before, rule);
        state.step = rule.step;
        let mut out: Vec<P> = Vec::with_capacity(params.len());
        let mut i: usize = 0;
        while i < params.len() && i < grads.len()
            invariant
                self.valid::<P, S>(),
                shorter(params@.len(), grads@.len()) <= before.len(),
                next == self.adam_step::<P, S>(params@, grads@, before, rule),
                i <= shorter(params@.len(), grads@.len()),
                state.step == rule.step,
                state.moments@.len() == before.len(),
                out@.len() == i,
                forall|k: int| 0 <= k < i ==> #[trigger] out@[k] == next.params[k],
                forall|k: int|
                    0 <= k < before.len() ==> #[trigger] state.moments@[k] == (if k < i {
                        next.moments[k]
                    } else {
                        before[k]
                    }),
            decreases params@.len() - i,
        {
            let m: P = apply3(&self.first, &state.moments[i].m, &grads[i], &rule.beta1);
            let v: P = apply3(&self.second, &state.moments[i].v, &grads[i], &rule.beta2);
            out.push(apply4(&self.adam, &params[i], &m, &v, &rule));
            state.moments.set(i, MomentState { m, v });
            i = i + 1;
        }
        proof {
            assert(out@ =~= next.params);
            assert(state.moments@ =~= next.moments);
        }
        out
    }

    /// Applies one optimizer step to all parameters: gives the updated parameters and advances
    /// the state. A parameter without a gradient is dropped.
    pub fn update<P, S: Copy>(
        &self,
        solver: &Solver<S>,
        params: &[P],
        grads: &Vec<P>,
        state: &mut OptimizerState<P>,
    ) -> (out: Vec<P>) where
        G: Fn(&P, &P, &S) -> P,
        D: Fn(&P, &P, &S) -> P,
        E: Fn(&P, &P, &S) -> P,
        A: Fn(&P, &P, &P, &AdamRule<S>) -> P,
        C: Fn(&Vec<P>, &S) -> Vec<P>,

        requires
            self.valid::<P, S>(),
            solver.keeps_moments() ==> shorter(params@.len(), grads@.len()) <= old(
                state,
            ).moments@.len(),
            solver.keeps_moments() ==> old(state).step < i32::MAX,
        ensures
            out@.len() == shorter(params@.len(), grads@.len()),
            ({
                let next = self.step::<P, S>(
                    *solver,
                    params@,
                    grads@,
                    old(state).step as int,
                    old(state).moments@,
                );
                &&& out@ == next.params
                &&& final(state).step == next.step
                &&& final(state).moments@ == next.moments
            }),
        decreases solver,
    {
        match solver {
            Solver::Sgd { lr } => {
                let mut out: Vec<P> = Vec::with_capacity(params.len());
                let mut i: usize = 0;
                while i < params.len() && i < grads.len()
                    invariant
                        self.valid::<P, S>(),
                        i <= shorter(params@.len(), grads@.len()),
                        out@.len() == i,
                        forall|k: int|
                            0 <= k < i ==> #[trigger] out@[k] == value3::<P, P, S, P, G>(
                                self.sgd,
                                params@[k],
                                grads@[k],
                                *lr,
                            ),
                    decreases params@.len() - i,
                {
                    out.push(apply3(&self.sgd, &params[i], &grads[i], lr));
                    i = i + 1;
                }
                proof {
                    assert(out@ =~= self.step::<P, S>(
                        *solver,
                        params@,
                        grads@,
                        old(state).step as int,
                        old(state).moments@,
                    ).params);
                }
                out
            },
            Solver::Adam { lr, beta1, beta2, eps } => {
                let rule = AdamRule {
                    step: state.step + 1,
                    lr: *lr,
                    beta1: *beta1,
                    beta2: *beta2,
                    eps: *eps,
                    weight_decay: None,
                };
                self.update_adam(params, grads, state, rule)
            },
            Solver::AdamW { lr, beta1, beta2, eps, weight_decay } => {
                let rule = AdamRule {
                    step: state.step + 1,
                    lr: *lr,
                    beta1: *beta1,
                    beta2: *beta2,
                    eps: *eps,
                    weight_decay: Some(*weight_decay),
                };
                self.update_adam(params, grads, state, rule)
            },
            Solver::TrustRegion { max_norm, inner } => {
                let clipped: Vec<P> = map2(&self.clip, grads, max_norm);
                self.update(inner, params, &clipped, state)
            },
        }
    }

    /// One call is one step: the step count grows by one where the optimizer keeps moments and
    /// stays otherwise, whatever the number of parameters; and moments are never gained or lost.
    pub proof fn one_call_is_one_step<P, S>(
        &self,
        solver: Solver<S>,
        params: Seq<P>,
        grads: Seq<P>,
        step: int,
        moments: Seq<MomentState<P>>,
    ) where
        G: Fn(&P, &P, &S) -> P,
        D: Fn(&P, &P, &S) -> P,
        E: Fn(&P, &P, &S) -> P,
        A: Fn(&P, &P, &P, &AdamRule<S>) -> P,
        C: Fn(&Vec<P>, &S) -> Vec<P>,

        requires
            i32::MIN <= step <= i32::MAX,
            solver.keeps_moments() ==> step < i32::MAX,
        ensures
            ({
                let next = self.step::<P, S>(solver, params, grads, step, moments);
                &&& next.step == (if solver.keeps_moments() {
                    step + 1
                } else {
                    step
                })
                &&& next.moments.len() == moments.len()
                &&& !solver.keeps_moments() ==> next.moments == moments
            }),
        decreases solver,
    {
        match solver {
            Solver::TrustRegion { max_norm, inner } => {
                self.one_call_is_one_step::<P, S>(
                    *inner,
                    params,
                    mapped2::<P, S, P, C>(self.clip, grads, max_norm),
                    step,
                    moments,
                );
            },
            _ => {},
        }
    }
}

} // verus!
