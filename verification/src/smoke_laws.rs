//! What holds of the short training runs: every environment has its own noise, the best accuracy
//! is the best of all epochs, and each update sees what its own epoch measured.

use vstd::prelude::*;

use crate::noise::IterInfo;
use crate::ops::{listed1, seen_pair, value1, value2, value3};
use crate::smoke::{iterations, SmokeOps};

verus! {

impl<SP, EV, ST, FI, UP, AC, BE, PR, GP> SmokeOps<SP, EV, ST, FI, UP, AC, BE, PR, GP> {
    /// Every environment has its own noise and its own row: where stacking puts rows behind each
    /// other and an environment has one row, the logits of an epoch are one row for each
    /// environment, measured with the noise of its thread in that epoch.
    pub proof fn environments_have_their_own_rows<M, X, L, W>(
        &self,
        model: M,
        x: X,
        epoch: i32,
        envs: nat,
        rows: spec_fn(L) -> Seq<W>,
        row: spec_fn(M, X, IterInfo) -> W,
    ) where EV: Fn(&M, &X, &IterInfo) -> L, ST: Fn(&L, &L) -> L
        requires
            0 < envs <= i32::MAX,
            forall|m: M, y: X, info: IterInfo|
                rows(#[trigger] value3::<M, X, IterInfo, L, EV>(self.evaluate, m, y, info)) == seq![
                    row(m, y, info),
                ],
            forall|a: L, b: L|
                rows(#[trigger] value2::<L, L, L, ST>(self.stack, a, b)) == rows(a) + rows(b),
        ensures
            rows(self.epoch_logits::<M, X, L>(model, x, epoch as int, envs)) == Seq::new(
                envs,
                |i: int| row(model, x, IterInfo { epoch, thread_id: i as i32 }),
            ),
    {
        self.rows_of_environments::<M, X, L, W>(model, x, epoch, envs, rows, row, envs);
    }

    proof fn rows_of_environments<M, X, L, W>(
        &self,
        model: M,
        x: X,
        epoch: i32,
        envs: nat,
        rows: spec_fn(L) -> Seq<W>,
        row: spec_fn(M, X, IterInfo) -> W,
        n: nat,
    ) where EV: Fn(&M, &X, &IterInfo) -> L, ST: Fn(&L, &L) -> L
        requires
            0 < n <= envs <= i32::MAX,
            forall|m: M, y: X, info: IterInfo|
                rows(#[trigger] value3::<M, X, IterInfo, L, EV>(self.evaluate, m, y, info)) == seq![
                    row(m, y, info),
                ],
            forall|a: L, b: L|
                rows(#[trigger] value2::<L, L, L, ST>(self.stack, a, b)) == rows(a) + rows(b),
        ensures
            rows(
                self.logits::<M, X, L>(model, x, iterations(epoch as int, envs), n),
            ) == Seq::new(n, |i: int| row(model, x, IterInfo { epoch, thread_id: i as i32 })),
        decreases n,
    {
        let infos = iterations(epoch as int, envs);
        let found = rows(self.logits::<M, X, L>(model, x, infos, n));
        let wanted = Seq::new(n, |i: int| row(model, x, IterInfo { epoch, thread_id: i as i32 }));
        assert(infos[n - 1] == (IterInfo { epoch, thread_id: (n - 1) as i32 }));
        if n > 1 {
            self.rows_of_environments::<M, X, L, W>(
                model,
                x,
                epoch,
                envs,
                rows,
                row,
                (n - 1) as nat,
            );
        }
        assert(found =~= wanted);
    }

    /// The best is the best: where `better` gives the greater of two accuracies, the best accuracy
    /// is at least that of every epoch, measured with the model before the epoch's update, and it
    /// is the accuracy of an epoch or what the run started from.
    pub proof fn best_is_the_best<M, X, L, F, A>(
        &self,
        model: M,
        inputs: Seq<X>,
        envs: nat,
        start: A,
        n: nat,
        worth: spec_fn(A) -> int,
    ) where
        EV: Fn(&M, &X, &IterInfo) -> L,
        ST: Fn(&L, &L) -> L,
        FI: Fn(&L) -> Vec<F>,
        UP: Fn(&M, &Vec<F>, &Vec<IterInfo>) -> M,
        AC: Fn(&L) -> A,
        BE: Fn(&A, &A) -> A,

        requires
            forall|a: A, b: A|
                #[trigger] value2::<A, A, A, BE>(self.better, a, b) == if worth(a) < worth(b) {
                    b
                } else {
                    a
                },
        ensures
            ({
                let best = self.best_after::<M, X, L, F, A>(model, inputs, envs, start, n);
                &&& worth(best) >= worth(start)
                &&& forall|e: nat|
                    e < n ==> worth(best) >= worth(
                        #[trigger] self.accuracy_at::<M, X, L, F, A>(model, inputs, envs, e),
                    )
                &&& best == start || exists|e: nat|
                    e < n && best == #[trigger] self.accuracy_at::<M, X, L, F, A>(
                        model,
                        inputs,
                        envs,
                        e,
                    )
            }),
        decreases n,
    {
        if n > 0 {
            let m = (n - 1) as nat;
            self.best_is_the_best::<M, X, L, F, A>(model, inputs, envs, start, m, worth);
            let was = self.best_after::<M, X, L, F, A>(model, inputs, envs, start, m);
            let best = self.best_after::<M, X, L, F, A>(model, inputs, envs, start, n);
            let now = self.accuracy_at::<M, X, L, F, A>(model, inputs, envs, m);
            assert(best == value2::<A, A, A, BE>(self.better, was, now));
        }
    }

    /// The accuracy of an epoch: of the model behind the epochs before it, on its own input.
    pub open spec fn accuracy_at<M, X, L, F, A>(
        &self,
        model: M,
        inputs: Seq<X>,
        envs: nat,
        e: nat,
    ) -> A where
        EV: Fn(&M, &X, &IterInfo) -> L,
        ST: Fn(&L, &L) -> L,
        FI: Fn(&L) -> Vec<F>,
        UP: Fn(&M, &Vec<F>, &Vec<IterInfo>) -> M,
        AC: Fn(&L) -> A,
     {
        value1::<L, A, AC>(
            self.accuracy,
            self.epoch_logits::<M, X, L>(
                self.model_after::<M, X, L, F>(model, inputs, envs, e),
                inputs[e as int],
                e as int,
                envs,
            ),
        )
    }

    /// Updates see their own epoch: take what a model is worth, and let an update move it by what
    /// its fitnesses and iterations are worth together, the fitnesses depending on what the model
    /// was worth when they were measured. Then the model goes through the worths that follow from
    /// one another, each epoch by the fitnesses of the model so far, on the epoch's own input and
    /// under the epoch's own noise.
    pub proof fn epochs_follow_one_another<M, X, L, F>(
        &self,
        model: M,
        inputs: Seq<X>,
        envs: nat,
        n: nat,
        worth: spec_fn(M) -> int,
        gain: spec_fn(Seq<F>, Seq<IterInfo>) -> int,
        fits: spec_fn(int, X, int) -> Seq<F>,
        worths: Seq<int>,
    ) where
        EV: Fn(&M, &X, &IterInfo) -> L,
        ST: Fn(&L, &L) -> L,
        FI: Fn(&L) -> Vec<F>,
        UP: Fn(&M, &Vec<F>, &Vec<IterInfo>) -> M,

        requires
            n <= inputs.len(),
            worths.len() == inputs.len() + 1,
            forall|m: M, f: Seq<F>, i: Seq<IterInfo>|
                worth(#[trigger] seen_pair::<M, F, IterInfo, M, UP>(self.update, m, f, i)) == worth(
                    m,
                ) + gain(f, i),
            forall|m: M, y: X, e: int|
                listed1::<L, F, FI>(
                    self.fitness,
                    #[trigger] self.epoch_logits::<M, X, L>(m, y, e, envs),
                ) == fits(worth(m), y, e),
            worths[0] == worth(model),
            forall|e: int|
                0 <= e < inputs.len() ==> #[trigger] worths[e + 1] == worths[e] + gain(
                    fits(worths[e], inputs[e], e),
                    Seq::new(envs, |i: int| IterInfo { epoch: e as i32, thread_id: i as i32 }),
                ),
        ensures
            worth(self.model_after::<M, X, L, F>(model, inputs, envs, n)) == worths[n as int],
        decreases n,
    {
        if n > 0 {
            self.epochs_follow_one_another::<M, X, L, F>(
                model,
                inputs,
                envs,
                (n - 1) as nat,
                worth,
                gain,
                fits,
                worths,
            );
            assert(iterations(n - 1, envs) =~= Seq::new(
                envs,
                |i: int| IterInfo { epoch: (n - 1) as i32, thread_id: i as i32 },
            ));
            let before = self.model_after::<M, X, L, F>(model, inputs, envs, (n - 1) as nat);
            let logits = self.epoch_logits::<M, X, L>(before, inputs[n - 1], n - 1, envs);
            assert(listed1::<L, F, FI>(self.fitness, logits) == fits(
                worths[n - 1],
                inputs[n - 1],
                n - 1,
            ));
            assert(worths[(n - 1) + 1] == worths[n as int]);
        }
    }
}

} // verus!
