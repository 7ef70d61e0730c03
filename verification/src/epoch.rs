//! An epoch of training in one pass: the chunks of a batch are evaluated with raw
//! fitnesses, their weighted and plain sums add up, and mean and deviation of all
//! fitnesses make the gradients of one optimizer step.

use vstd::prelude::*;

use crate::ops::{apply1, apply2, computes1, computes2, value1, value2};
use crate::solver::{AdamRule, OptimizerState, Solver, SolverOps, Stepped};
use crate::update::{combine_affine_grads, AffineOps};

verus! {

/// The samples of a chunk.
#[derive(Clone, Copy, Debug, PartialEq, Eq, Structural)]
pub struct ChunkRange {
    /// The epoch.
    pub epoch: usize,
    /// The first sample.
    pub lo: usize,
    /// Where the chunk ends.
    pub hi: usize,
}

/// Sums over the samples of a chunk, or of all chunks so far.
pub struct ChunkSums<P, F> {
    /// For each parameter its noise, weighted by the raw fitnesses.
    pub raw: Vec<P>,
    /// For each parameter its noise.
    pub ones: Vec<P>,
    /// The raw fitnesses.
    pub total: F,
    /// Their squares.
    pub squares: F,
    /// The right answers.
    pub correct: F,
}

/// Sums as mathematical values.
#[verifier::ext_equal]
pub struct SumsView<P, F> {
    /// For each parameter its noise, weighted by the raw fitnesses.
    pub raw: Seq<P>,
    /// For each parameter its noise.
    pub ones: Seq<P>,
    /// The raw fitnesses.
    pub total: F,
    /// Their squares.
    pub squares: F,
    /// The right answers.
    pub correct: F,
}

impl<P, F> View for ChunkSums<P, F> {
    type V = SumsView<P, F>;

    open spec fn view(&self) -> SumsView<P, F> {
        SumsView {
            raw: self.raw@,
            ones: self.ones@,
            total: self.total,
            squares: self.squares,
            correct: self.correct,
        }
    }
}

/// The operations of an epoch, on parameters `P` and numbers `F`.
pub struct EpochOps<F, EV, ZE, AD, PL, OV, DE, TI, MI, FA> {
    /// The sums of a chunk under given parameters; may draw at random.
    pub evaluate: EV,
    /// Zero of a parameter's shape.
    pub zeros: ZE,
    /// The sum of two sums of noise.
    pub add: AD,
    /// Zero.
    pub zero: F,
    /// The sum of two numbers.
    pub plus: PL,
    /// A number over a count.
    pub over: OV,
    /// The deviation, of a mean and the mean of the squares.
    pub deviation: DE,
    /// The arithmetic of the gradients.
    pub affine: AffineOps<TI, MI, FA>,
}

/// Chunk `k` of an epoch.
pub open spec fn chunk_range(epoch: usize, chunk: int, k: int) -> ChunkRange {
    ChunkRange { epoch, lo: (k * chunk) as usize, hi: ((k + 1) * chunk) as usize }
}

/// Element by element, what `add` makes of two lists of one length.
pub open spec fn added<P, AD: Fn(&P, &P) -> P>(add: AD, a: Seq<P>, b: Seq<P>) -> Seq<P> {
    Seq::new(a.len(), |i: int| value2::<P, P, P, AD>(add, a[i], b[i]))
}

/// Adds two lists of one length element by element.
fn add_all<P, AD: Fn(&P, &P) -> P>(add: &AD, a: &Vec<P>, b: &Vec<P>) -> (out: Vec<P>)
    requires
        a@.len() == b@.len(),
        computes2::<P, P, P, AD>(*add),
    ensures
        out@ == added::<P, AD>(*add, a@, b@),
{
    let mut out: Vec<P> = Vec::with_capacity(a.len());
    let mut i: usize = 0;
    while i < a.len()
        invariant
            i <= a@.len() == b@.len(),
            computes2::<P, P, P, AD>(*add),
            out@.len() == i,
            forall|k: int|
                0 <= k < i ==> #[trigger] out@[k] == value2::<P, P, P, AD>(*add, a@[k], b@[k]),
        decreases a@.len() - i,
    {
        out.push(apply2(add, &a[i], &b[i]));
        i = i + 1;
    }
    proof {
        assert(out@ =~= added::<P, AD>(*add, a@, b@));
    }
    out
}

impl<F, EV, ZE, AD, PL, OV, DE, TI, MI, FA> EpochOps<F, EV, ZE, AD, PL, OV, DE, TI, MI, FA> {
    /// Each operation gives one result for each argument, but `evaluate`, which gives a sum for
    /// each parameter.
    pub open spec fn valid<P>(&self) -> bool where
        EV: Fn(&Vec<P>, &ChunkRange) -> ChunkSums<P, F>,
        ZE: Fn(&P) -> P,
        AD: Fn(&P, &P) -> P,
        PL: Fn(&F, &F) -> F,
        OV: Fn(&F, &usize) -> F,
        DE: Fn(&F, &F) -> F,
        TI: Fn(&P, &F) -> P,
        MI: Fn(&P, &P) -> P,
        FA: Fn(&F, &usize) -> F,
     {
        &&& forall|p: Vec<P>, range: ChunkRange| #[trigger] self.evaluate.requires((&p, &range))
        &&& forall|p: Vec<P>, range: ChunkRange, sums: ChunkSums<P, F>| #[trigger]
            self.evaluate.ensures((&p, &range), sums) ==> sums.raw@.len() == p@.len()
                && sums.ones@.len() == p@.len()
        &&& computes1::<P, P, ZE>(self.zeros)
        &&& computes2::<P, P, P, AD>(self.add)
        &&& computes2::<F, F, F, PL>(self.plus)
        &&& computes2::<F, usize, F, OV>(self.over)
        &&& computes2::<F, F, F, DE>(self.deviation)
        &&& self.affine.valid::<P, F>()
    }

    /// The sums of the first `n` chunks.
    pub open spec fn sums_after<P>(
        &self,
        params: Seq<P>,
        chunks: Seq<ChunkSums<P, F>>,
        n: nat,
    ) -> SumsView<P, F> where ZE: Fn(&P) -> P, AD: Fn(&P, &P) -> P, PL: Fn(&F, &F) -> F
        decreases n,
    {
        if n == 0 {
            let zeros = params.map_values(|p: P| value1::<P, P, ZE>(self.zeros, p));
            SumsView {
                raw: zeros,
                ones: zeros,
                total: self.zero,
                squares: self.zero,
                correct: self.zero,
            }
        } else {
            let before = self.sums_after::<P>(params, chunks, (n - 1) as nat);
            let more = chunks[n - 1]@;
            SumsView {
                raw: added::<P, AD>(self.add, before.raw, more.raw),
                ones: added::<P, AD>(self.add, before.ones, more.ones),
                total: value2::<F, F, F, PL>(self.plus, before.total, more.total),
                squares: value2::<F, F, F, PL>(self.plus, before.squares, more.squares),
                correct: value2::<F, F, F, PL>(self.plus, before.correct, more.correct),
            }
        }
    }

    /// The gradients of an epoch: those that the mean and the deviation of all fitnesses make of
    /// the sums.
    pub open spec fn gradients<P>(&self, sums: SumsView<P, F>, batch: usize) -> Seq<P> where
        OV: Fn(&F, &usize) -> F,
        DE: Fn(&F, &F) -> F,
        TI: Fn(&P, &F) -> P,
        MI: Fn(&P, &P) -> P,
        FA: Fn(&F, &usize) -> F,
     {
        let mean = value2::<F, usize, F, OV>(self.over, sums.total, batch);
        let mean_square = value2::<F, usize, F, OV>(self.over, sums.squares, batch);
        let std = value2::<F, F, F, DE>(self.deviation, mean, mean_square);
        self.affine.combined::<P, F>(sums.raw, sums.ones, mean, std, batch)
    }

    /// What an epoch gives: the optimizer step that its gradients make, and the share of right
    /// answers.
    pub open spec fn epoch_after<P, S, O1, O2, O3, O4, O5>(
        &self,
        solver_ops: SolverOps<O1, O2, O3, O4, O5>,
        solver: Solver<S>,
        at: Stepped<P>,
        chunks: Seq<ChunkSums<P, F>>,
        accumulate: usize,
        chunk: usize,
    ) -> (Stepped<P>, F) where
        ZE: Fn(&P) -> P,
        AD: Fn(&P, &P) -> P,
        PL: Fn(&F, &F) -> F,
        OV: Fn(&F, &usize) -> F,
        DE: Fn(&F, &F) -> F,
        TI: Fn(&P, &F) -> P,
        MI: Fn(&P, &P) -> P,
        FA: Fn(&F, &usize) -> F,
        O1: Fn(&P, &P, &S) -> P,
        O2: Fn(&P, &P, &S) -> P,
        O3: Fn(&P, &P, &S) -> P,
        O4: Fn(&P, &P, &P, &AdamRule<S>) -> P,
        O5: Fn(&Vec<P>, &S) -> Vec<P>,
     {
        let batch = (accumulate * chunk) as usize;
        let sums = self.sums_after::<P>(at.params, chunks, accumulate as nat);
        let next = solver_ops.step::<P, S>(
            solver,
            at.params,
            self.gradients::<P>(sums, batch),
            at.step,
            at.moments,
        );
        (next, value2::<F, usize, F, OV>(self.over, sums.correct, batch))
    }

    /// A zero for each parameter.
    fn zeros_of<P>(&self, params: &Vec<P>) -> (out: Vec<P>) where ZE: Fn(&P) -> P
        requires
            computes1::<P, P, ZE>(self.zeros),
        ensures
            out@ == params@.map_values(|p: P| value1::<P, P, ZE>(self.zeros, p)),
    {
        let mut out: Vec<P> = Vec::with_capacity(params.len());
        let mut i: usize = 0;
        while i < params.len()
            invariant
                i <= params@.len(),
                computes1::<P, P, ZE>(self.zeros),
                out@.len() == i,
                forall|k: int|
                    0 <= k < i ==> #[trigger] out@[k] == value1::<P, P, ZE>(self.zeros, params@[k]),
            decreases params@.len() - i,
        {
            out.push(apply1(&self.zeros, &params[i]));
            i = i + 1;
        }
        proof {
            assert(out@ =~= params@.map_values(|p: P| value1::<P, P, ZE>(self.zeros, p)));
        }
        out
    }

    /// Runs an epoch: evaluates the chunks of a batch under the parameters, and takes one optimizer
    /// step. Gives the updated parameters and the share of right answers.
    pub fn run_epoch<P, S: Copy, O1, O2, O3, O4, O5>(
        &self,
        solver_ops: &SolverOps<O1, O2, O3, O4, O5>,
        solver: &Solver<S>,
        params: &Vec<P>,
        state: &mut OptimizerState<P>,
        epoch: usize,
        accumulate: usize,
        chunk: usize,
    ) -> (r: (Vec<P>, F)) where
        EV: Fn(&Vec<P>, &ChunkRange) -> ChunkSums<P, F>,
        ZE: Fn(&P) -> P,
        AD: Fn(&P, &P) -> P,
        PL: Fn(&F, &F) -> F,
        OV: Fn(&F, &usize) -> F,
        DE: Fn(&F, &F) -> F,
        TI: Fn(&P, &F) -> P,
        MI: Fn(&P, &P) -> P,
        FA: Fn(&F, &usize) -> F,
        O1: Fn(&P, &P, &S) -> P,
        O2: Fn(&P, &P, &S) -> P,
        O3: Fn(&P, &P, &S) -> P,
        O4: Fn(&P, &P, &P, &AdamRule<S>) -> P,
        O5: Fn(&Vec<P>, &S) -> Vec<P>,
        F: Copy,

        requires
            self.valid::<P>(),
            solver_ops.valid::<P, S>(),
            accumulate * chunk <= usize::MAX,
            solver.keeps_moments() ==> params@.len() <= old(state).moments@.len() && old(state).step
                < i32::MAX,
        ensures
            r.0@.len() == params@.len(),
            exists|chunks: Seq<ChunkSums<P, F>>|
                {
                    let (next, share) = #[trigger] self.epoch_after::<P, S, O1, O2, O3, O4, O5>(
                        *solver_ops,
                        *solver,
                        (Stepped {
                            params: params@,
                            step: old(state).step as int,
                            moments: old(state).moments@,
                        }),
                        chunks,
                        accumulate,
                        chunk,
                    );
                    &&& chunks.len() == accumulate
                    &&& forall|k: int|
                        0 <= k < accumulate ==> self.evaluate.ensures(
                            (params, &chunk_range(epoch, chunk as int, k)),
                            #[trigger] chunks[k],
                        )
                    &&& r.0@ == next.params
                    &&& final(state).step == next.step
                    &&& final(state).moments@ == next.moments
                    &&& r.1 == share
                },
    {
        let ghost mut chunks: Seq<ChunkSums<P, F>> = Seq::empty();
        let mut raw: Vec<P> = self.zeros_of(params);
        let mut ones: Vec<P> = self.zeros_of(params);
        let mut total: F = self.zero;
        let mut squares: F = self.zero;
        let mut correct: F = self.zero;
        let mut k: usize = 0;
        while k < accumulate
            invariant
                self.valid::<P>(),
                accumulate * chunk <= usize::MAX,
                k <= accumulate,
                chunks.len() == k,
                forall|j: int|
                    0 <= j < k ==> self.evaluate.ensures(
                        (params, &chunk_range(epoch, chunk as int, j)),
                        #[trigger] chunks[j],
                    ),
                raw@.len() == params@.len(),
                ones@.len() == params@.len(),
                (SumsView { raw: raw@, ones: ones@, total, squares, correct }) == self.sums_after::<
                    P,
                >(params@, chunks, k as nat),
            decreases accumulate - k,
        {
            proof {
                assert(0 <= k * chunk && (k + 1) * chunk == k * chunk + chunk && (k + 1) * chunk
                    <= accumulate * chunk) by (nonlinear_arith)
                    requires
                        0 <= k < accumulate,
                        0 <= chunk,
                ;
            }
            let range = ChunkRange { epoch, lo: k * chunk, hi: k * chunk + chunk };
            let more: ChunkSums<P, F> = (self.evaluate)(params, &range);
            proof {
                let longer = chunks.push(more);
                self.prefix_is_enough::<P>(params@, chunks, longer, k as nat);
                chunks = longer;
            }
            raw = add_all(&self.add, &raw, &more.raw);
            ones = add_all(&self.add, &ones, &more.ones);
            total = apply2(&self.plus, &total, &more.total);
            squares = apply2(&self.plus, &squares, &more.squares);
            correct = apply2(&self.plus, &correct, &more.correct);
            k = k + 1;
        }
        let batch: usize = accumulate * chunk;
        let mean: F = apply2(&self.over, &total, &batch);
        let mean_square: F = apply2(&self.over, &squares, &batch);
        let std: F = apply2(&self.deviation, &mean, &mean_square);
        let grads: Vec<P> = combine_affine_grads(
            &self.affine,
            raw.as_slice(),
            ones.as_slice(),
            &mean,
            &std,
            batch,
        );
        let ghost at = Stepped {
            params: params@,
            step: state.step as int,
            moments: state.moments@,
        };
        let ghost found = self.epoch_after::<P, S, O1, O2, O3, O4, O5>(
            *solver_ops,
            *solver,
            at,
            chunks,
            accumulate,
            chunk,
        );
        let out: Vec<P> = solver_ops.update(solver, params.as_slice(), &grads, state);
        proof {
            assert(out@ == found.0.params);
        }
        (out, apply2(&self.over, &correct, &batch))
    }

    /// The sums of the first chunks do not depend on later ones.
    proof fn prefix_is_enough<P>(
        &self,
        params: Seq<P>,
        a: Seq<ChunkSums<P, F>>,
        b: Seq<ChunkSums<P, F>>,
        n: nat,
    ) where ZE: Fn(&P) -> P, AD: Fn(&P, &P) -> P, PL: Fn(&F, &F) -> F
        requires
            n <= a.len(),
            n <= b.len(),
            forall|i: int| 0 <= i < n ==> a[i] == #[trigger] b[i],
        ensures
            self.sums_after::<P>(params, a, n) == self.sums_after::<P>(params, b, n),
        decreases n,
    {
        if n > 0 {
            self.prefix_is_enough::<P>(params, a, b, (n - 1) as nat);
            assert(a[n - 1] == b[n - 1]);
        }
    }
}

} // verus!
