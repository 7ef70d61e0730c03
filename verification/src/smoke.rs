//! A training run of a few epochs: every environment is evaluated with noise of
//! its own, the parameters are updated once per epoch with the very same noise,
//! and the best accuracy is kept.

use vstd::prelude::*;

use crate::noise::IterInfo;
use crate::ops::{
    apply1, apply2, apply3, computes1, computes2, computes3, list1, listed1, lists1, reads2,
    reads_pair, see2, see_pair, seen2, seen_pair, value1, value2, value3,
};

verus! {

/// The operations of a run, on models `M` that hold their optimizer, logits `L`, fitnesses `F`,
/// accuracies `A` and parameters `P`.
pub struct SmokeOps<SP, EV, ST, FI, UP, AC, BE, PR, GP> {
    /// The input of an epoch.
    pub encode: SP,
    /// The logits of an environment, of a model, an input and the environment's iteration.
    pub evaluate: EV,
    /// Logits with those of one more environment behind them.
    pub stack: ST,
    /// The normalised fitnesses of logits.
    pub fitness: FI,
    /// The model after an update, of the model, fitnesses and the iterations that they belong to.
    pub update: UP,
    /// The accuracy of logits.
    pub accuracy: AC,
    /// The better of two accuracies.
    pub better: BE,
    /// The parameters of a model.
    pub params: PR,
    /// The largest change between two lists of parameters.
    pub gap: GP,
}

/// How a run went.
pub struct SmokeStats<M, A, D> {
    /// The last model.
    pub model: M,
    /// The best accuracy.
    pub best_acc: A,
    /// The largest change of a parameter from the first model to the last.
    pub max_param_delta: D,
}

/// The iteration of an environment in an epoch.
pub open spec fn iteration(epoch: int, env: int) -> IterInfo {
    IterInfo { epoch: epoch as i32, thread_id: env as i32 }
}

/// The iterations of the environments of an epoch, one for each.
pub open spec fn iterations(epoch: int, envs: nat) -> Seq<IterInfo> {
    Seq::new(envs, |i: int| iteration(epoch, i))
}

/// Makes the iterations of the environments of an epoch.
fn make_iterations(epoch: i32, envs: i32) -> (infos: Vec<IterInfo>)
    requires
        0 <= envs,
    ensures
        infos@ == iterations(epoch as int, envs as nat),
{
    let mut infos: Vec<IterInfo> = Vec::new();
    let mut i: i32 = 0;
    while i < envs
        invariant
            0 <= i <= envs,
            infos@ == iterations(epoch as int, i as nat),
        decreases envs - i,
    {
        infos.push(IterInfo { epoch, thread_id: i });
        i = i + 1;
        proof {
            assert(infos@ =~= iterations(epoch as int, i as nat));
        }
    }
    infos
}

impl<SP, EV, ST, FI, UP, AC, BE, PR, GP> SmokeOps<SP, EV, ST, FI, UP, AC, BE, PR, GP> {
    /// Each operation gives one result for each argument; `encode` may draw at random.
    pub open spec fn valid<M, X, L, F, A, P, D>(&self) -> bool where
        SP: Fn(&i32) -> X,
        EV: Fn(&M, &X, &IterInfo) -> L,
        ST: Fn(&L, &L) -> L,
        FI: Fn(&L) -> Vec<F>,
        UP: Fn(&M, &Vec<F>, &Vec<IterInfo>) -> M,
        AC: Fn(&L) -> A,
        BE: Fn(&A, &A) -> A,
        PR: Fn(&M) -> Vec<P>,
        GP: Fn(&Vec<P>, &Vec<P>) -> D,
     {
        &&& forall|e: i32| #[trigger] self.encode.requires((&e,))
        &&& computes3::<M, X, IterInfo, L, EV>(self.evaluate)
        &&& computes2::<L, L, L, ST>(self.stack)
        &&& lists1::<L, F, FI>(self.fitness)
        &&& reads_pair::<M, F, IterInfo, M, UP>(self.update)
        &&& computes1::<L, A, AC>(self.accuracy)
        &&& computes2::<A, A, A, BE>(self.better)
        &&& lists1::<M, P, PR>(self.params)
        &&& reads2::<P, P, D, GP>(self.gap)
    }

    /// The logits of the first `n` environments: each with the noise of its own iteration.
    pub open spec fn logits<M, X, L>(&self, model: M, x: X, infos: Seq<IterInfo>, n: nat) -> L where
        EV: Fn(&M, &X, &IterInfo) -> L,
        ST: Fn(&L, &L) -> L,

        decreases n,
    {
        if n <= 1 {
            value3::<M, X, IterInfo, L, EV>(self.evaluate, model, x, infos[0])
        } else {
            value2::<L, L, L, ST>(
                self.stack,
                self.logits::<M, X, L>(model, x, infos, (n - 1) as nat),
                value3::<M, X, IterInfo, L, EV>(self.evaluate, model, x, infos[n - 1]),
            )
        }
    }

    /// The logits of all environments of an epoch.
    pub open spec fn epoch_logits<M, X, L>(&self, model: M, x: X, epoch: int, envs: nat) -> L where
        EV: Fn(&M, &X, &IterInfo) -> L,
        ST: Fn(&L, &L) -> L,
     {
        self.logits::<M, X, L>(model, x, iterations(epoch, envs), envs)
    }

    /// The model behind the first `n` epochs, whose inputs are `inputs`: each update gets the
    /// iterations whose noise the fitnesses were measured with.
    pub open spec fn model_after<M, X, L, F>(
        &self,
        model: M,
        inputs: Seq<X>,
        envs: nat,
        n: nat,
    ) -> M where
        EV: Fn(&M, &X, &IterInfo) -> L,
        ST: Fn(&L, &L) -> L,
        FI: Fn(&L) -> Vec<F>,
        UP: Fn(&M, &Vec<F>, &Vec<IterInfo>) -> M,

        decreases n,
    {
        if n == 0 {
            model
        } else {
            let before = self.model_after::<M, X, L, F>(model, inputs, envs, (n - 1) as nat);
            let logits = self.epoch_logits::<M, X, L>(before, inputs[n - 1], n - 1, envs);
            seen_pair::<M, F, IterInfo, M, UP>(
                self.update,
                before,
                listed1::<L, F, FI>(self.fitness, logits),
                iterations(n - 1, envs),
            )
        }
    }

    /// The best accuracy of the first `n` epochs, each measured before its update.
    pub open spec fn best_after<M, X, L, F, A>(
        &self,
        model: M,
        inputs: Seq<X>,
        envs: nat,
        start: A,
        n: nat,
    ) -> A where
        EV: Fn(&M, &X, &IterInfo) -> L,
        ST: Fn(&L, &L) -> L,
        FI: Fn(&L) -> Vec<F>,
        UP: Fn(&M, &Vec<F>, &Vec<IterInfo>) -> M,
        AC: Fn(&L) -> A,
        BE: Fn(&A, &A) -> A,

        decreases n,
    {
        if n == 0 {
            start
        } else {
            let before = self.model_after::<M, X, L, F>(model, inputs, envs, (n - 1) as nat);
            let logits = self.epoch_logits::<M, X, L>(before, inputs[n - 1], n - 1, envs);
            value2::<A, A, A, BE>(
                self.better,
                self.best_after::<M, X, L, F, A>(model, inputs, envs, start, (n - 1) as nat),
                value1::<L, A, AC>(self.accuracy, logits),
            )
        }
    }

    /// Evaluates all environments of an epoch.
    fn evaluate_all<M, X, L>(&self, model: &M, x: &X, infos: &Vec<IterInfo>) -> (logits: L) where
        EV: Fn(&M, &X, &IterInfo) -> L,
        ST: Fn(&L, &L) -> L,

        requires
            computes3::<M, X, IterInfo, L, EV>(self.evaluate),
            computes2::<L, L, L, ST>(self.stack),
            1 <= infos@.len(),
        ensures
            logits == self.logits::<M, X, L>(*model, *x, infos@, infos@.len()),
    {
        let mut logits: L = apply3(&self.evaluate, model, x, &infos[0]);
        let mut i: usize = 1;
        while i < infos.len()
            invariant
                1 <= i <= infos@.len(),
                computes3::<M, X, IterInfo, L, EV>(self.evaluate),
                computes2::<L, L, L, ST>(self.stack),
                logits == self.logits::<M, X, L>(*model, *x, infos@, i as nat),
            decreases infos@.len() - i,
        {
            let more: L = apply3(&self.evaluate, model, x, &infos[i]);
            logits = apply2(&self.stack, &logits, &more);
            i = i + 1;
        }
        logits
    }

    /// Trains for some epochs; gives the last model, the best accuracy, and the largest change of a
    /// parameter.
    pub fn train_smoke_stats<M, X, L, F, A, P, D>(
        &self,
        model: M,
        envs: i32,
        epochs: i32,
        start: A,
    ) -> (r: SmokeStats<M, A, D>) where
        SP: Fn(&i32) -> X,
        EV: Fn(&M, &X, &IterInfo) -> L,
        ST: Fn(&L, &L) -> L,
        FI: Fn(&L) -> Vec<F>,
        UP: Fn(&M, &Vec<F>, &Vec<IterInfo>) -> M,
        AC: Fn(&L) -> A,
        BE: Fn(&A, &A) -> A,
        PR: Fn(&M) -> Vec<P>,
        GP: Fn(&Vec<P>, &Vec<P>) -> D,

        requires
            self.valid::<M, X, L, F, A, P, D>(),
            1 <= envs,
            0 <= epochs,
        ensures
            exists|inputs: Seq<X>|
                {
                    &&& inputs.len() == epochs
                    &&& forall|e: int|
                        0 <= e < epochs ==> self.encode.ensures(
                            (&(e as i32),),
                            #[trigger] inputs[e],
                        )
                    &&& r.model == #[trigger] self.model_after::<M, X, L, F>(
                        model,
                        inputs,
                        envs as nat,
                        epochs as nat,
                    )
                    &&& r.best_acc == self.best_after::<M, X, L, F, A>(
                        model,
                        inputs,
                        envs as nat,
                        start,
                        epochs as nat,
                    )
                },
            r.max_param_delta == seen2::<P, P, D, GP>(
                self.gap,
                listed1::<M, P, PR>(self.params, model),
                listed1::<M, P, PR>(self.params, r.model),
            ),
    {
        let ghost first = model;
        let ghost base = start;
        let ghost mut inputs: Seq<X> = Seq::empty();
        let before: Vec<P> = list1(&self.params, &model);
        let mut now: M = model;
        let mut best: A = start;
        let mut epoch: i32 = 0;
        while epoch < epochs
            invariant
                self.valid::<M, X, L, F, A, P, D>(),
                1 <= envs,
                0 <= epoch <= epochs,
                inputs.len() == epoch,
                forall|e: int|
                    0 <= e < epoch ==> self.encode.ensures((&(e as i32),), #[trigger] inputs[e]),
                now == self.model_after::<M, X, L, F>(first, inputs, envs as nat, epoch as nat),
                best == self.best_after::<M, X, L, F, A>(
                    first,
                    inputs,
                    envs as nat,
                    base,
                    epoch as nat,
                ),
            decreases epochs - epoch,
        {
            let x: X = (self.encode)(&epoch);
            let infos: Vec<IterInfo> = make_iterations(epoch, envs);
            let logits: L = self.evaluate_all(&now, &x, &infos);
            let fitness: Vec<F> = list1(&self.fitness, &logits);
            proof {
                let more = inputs.push(x);
                self.prefix_is_enough::<M, X, L, F, A>(
                    first,
                    inputs,
                    more,
                    envs as nat,
                    base,
                    epoch as nat,
                );
                inputs = more;
            }
            now = see_pair(&self.update, &now, &fitness, &infos);
            let acc: A = apply1(&self.accuracy, &logits);
            best = apply2(&self.better, &best, &acc);
            epoch = epoch + 1;
        }
        let after: Vec<P> = list1(&self.params, &now);
        let max_param_delta: D = see2(&self.gap, &before, &after);
        SmokeStats { model: now, best_acc: best, max_param_delta }
    }

    /// What the first epochs make does not depend on the inputs of later ones.
    proof fn prefix_is_enough<M, X, L, F, A>(
        &self,
        model: M,
        a: Seq<X>,
        b: Seq<X>,
        envs: nat,
        start: A,
        n: nat,
    ) where
        EV: Fn(&M, &X, &IterInfo) -> L,
        ST: Fn(&L, &L) -> L,
        FI: Fn(&L) -> Vec<F>,
        UP: Fn(&M, &Vec<F>, &Vec<IterInfo>) -> M,
        AC: Fn(&L) -> A,
        BE: Fn(&A, &A) -> A,

        requires
            n <= a.len(),
            n <= b.len(),
            forall|i: int| 0 <= i < n ==> a[i] == #[trigger] b[i],
        ensures
            self.model_after::<M, X, L, F>(model, a, envs, n) == self.model_after::<M, X, L, F>(
                model,
                b,
                envs,
                n,
            ),
            self.best_after::<M, X, L, F, A>(model, a, envs, start, n) == self.best_after::<
                M,
                X,
                L,
                F,
                A,
            >(model, b, envs, start, n),
        decreases n,
    {
        if n > 0 {
            self.prefix_is_enough::<M, X, L, F, A>(model, a, b, envs, start, (n - 1) as nat);
            assert(a[n - 1] == b[n - 1]);
        }
    }
}

} // verus!
