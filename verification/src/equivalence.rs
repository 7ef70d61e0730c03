//! The check that accumulation equals the single batch.
//!
//! One update on a whole batch is compared with three others: on fitnesses from
//! forward passes over the chunks of the batch, on gradients accumulated over the
//! chunks, and, as a control, with updates after every chunk, each normalised by
//! itself.

use vstd::prelude::*;

use crate::accumulate::{AccumulateOps, Batch};
use crate::linearity::{accumulation_is_do_updates, compute_alike};
use crate::lora_cache::{paired_len, thread_ids, thread_range};
use crate::noise::IterInfo;
use crate::noiser::{drawable, FrozenNoiserParams, Noise, NoiseOps, NoiserKind, NoiserParams};
use crate::ops::{
    apply1, computes1, copies, copy_all, map2, mapped2, maps2, reads2, see2, seen2, value1,
};
use crate::solver::{AdamRule, MomentState, OptimizerState, SolverOps, Stepped};
use crate::train::{judge, verify_plan, verify_size, Verdict};
use crate::update::{do_updates, gradients_of, GradientOps};

verus! {

/// A check: the parameters and the noiser that it starts from, and the arithmetic of both ways of
/// updating them.
pub struct EquivalenceOps<
    'a,
    S,
    P,
    SC,
    CV,
    GP,
    NE,
    NC,
    N,
    SL,
    SD,
    B,
    H,
    Z2,
    A,
    SA,
    SB,
    E,
    G,
    Z,
    AL,
    AD,
    C,
    O1,
    O2,
    O3,
    O4,
    O5,
    K,
> {
    /// The settings of the noiser.
    pub frozen: &'a FrozenNoiserParams<S>,
    /// The state of the noiser.
    pub noiser: &'a NoiserParams<S, P>,
    /// The parameters.
    pub params: &'a Vec<P>,
    /// Their shapes.
    pub shapes: &'a [[usize; 2]],
    /// Their keys.
    pub base_keys: &'a [u64],
    /// Their update classes.
    pub es_classes: &'a [i32],
    /// How many workers draw noise.
    pub cores: usize,
    /// The operations that make noise.
    pub draws: &'a NoiseOps<N, SD, SL, B, H>,
    /// The arithmetic of gradients.
    pub arith: &'a GradientOps<Z2, A, SA, SB, E, G>,
    /// The arithmetic of accumulated gradients.
    pub chunks: &'a AccumulateOps<N, SL, SD, Z, AL, AD, C>,
    /// The arithmetic of the optimizer.
    pub solver_ops: &'a SolverOps<O1, O2, O3, O4, O5>,
    /// A copy of a parameter.
    pub copy: &'a K,
    /// The raw fitnesses of a range of samples under given parameters.
    pub score: SC,
    /// Normalised fitnesses, of raw ones and the size of a group.
    pub convert: CV,
    /// How far two lists of parameters are apart.
    pub gap: GP,
    /// Whether what should agree differs.
    pub differs: NE,
    /// Whether the control differs.
    pub control_differs: NC,
}

/// What a check found.
pub struct Comparison<D> {
    /// Samples.
    pub size: usize,
    /// Chunks.
    pub chunks: usize,
    /// Samples per chunk.
    pub chunk: usize,
    /// The gap between forward passes in chunks and the whole batch.
    pub forward: D,
    /// The gap between accumulated gradients and the whole batch.
    pub update: D,
    /// The gap between the control and the whole batch.
    pub control: D,
    /// What follows.
    pub verdict: Verdict,
}

/// The iterations of the samples `lo` to `hi`: all in the first epoch, each a thread of its own.
pub open spec fn sample_infos(lo: int, hi: int) -> Seq<IterInfo> {
    Seq::new((hi - lo) as nat, |j: int| IterInfo { epoch: 0, thread_id: (lo + j) as i32 })
}

/// Makes the iterations of the samples `lo` to `hi`.
fn make_infos(lo: usize, hi: usize) -> (infos: Vec<IterInfo>)
    requires
        lo <= hi <= i32::MAX,
    ensures
        infos@ == sample_infos(lo as int, hi as int),
{
    let mut infos: Vec<IterInfo> = Vec::with_capacity(hi - lo);
    let mut i: usize = lo;
    while i < hi
        invariant
            lo <= i <= hi <= i32::MAX,
            infos@ == sample_infos(lo as int, i as int),
        decreases hi - i,
    {
        infos.push(IterInfo { epoch: 0, thread_id: i as i32 });
        i = i + 1;
        proof {
            assert(infos@ =~= sample_infos(lo as int, i as int));
        }
    }
    infos
}

impl<
    'a,
    T: Copy,
    S: Copy,
    P,
    D,
    SC,
    CV,
    GP,
    NE,
    NC,
    N,
    SL,
    SD,
    B,
    H,
    Z2,
    A,
    SA,
    SB,
    E,
    G,
    Z,
    AL,
    AD,
    C,
    O1,
    O2,
    O3,
    O4,
    O5,
    K,
> EquivalenceOps<
    'a,
    S,
    P,
    SC,
    CV,
    GP,
    NE,
    NC,
    N,
    SL,
    SD,
    B,
    H,
    Z2,
    A,
    SA,
    SB,
    E,
    G,
    Z,
    AL,
    AD,
    C,
    O1,
    O2,
    O3,
    O4,
    O5,
    K,
> where
    SC: Fn(&Vec<P>, &(usize, usize)) -> Vec<T>,
    CV: Fn(&Vec<T>, &i32) -> Vec<T>,
    GP: Fn(&Vec<P>, &Vec<P>) -> D,
    NE: Fn(&D) -> bool,
    NC: Fn(&D) -> bool,
    N: Fn((u32, u32)) -> T,
    SL: Fn((i32, T)) -> T,
    SD: Fn((i32, T)) -> T,
    B: Fn(T) -> T,
    H: Fn(T) -> T,
    Z2: Fn(&[usize; 2]) -> P,
    A: Fn(&P, &Noise<T>, &T) -> P,
    SA: Fn(T) -> T,
    SB: Fn(T) -> T,
    E: Fn(&P, &(usize, usize, usize)) -> P,
    G: Fn(&P, &usize) -> P,
    Z: Fn(&[usize; 2]) -> P,
    AL: Fn(&P, &Vec<T>, &Vec<T>, &[usize; 2]) -> P,
    AD: Fn(&P, &Vec<T>, &Vec<T>, &[usize; 2]) -> P,
    C: Fn(&P, &usize) -> P,
    O1: Fn(&P, &P, &S) -> P,
    O2: Fn(&P, &P, &S) -> P,
    O3: Fn(&P, &P, &S) -> P,
    O4: Fn(&P, &P, &P, &AdamRule<S>) -> P,
    O5: Fn(&Vec<P>, &S) -> Vec<P>,
    K: Fn(&P) -> P,
 {
    /// Each operation gives one result for each argument; every sample has a fitness, every
    /// parameter a shape, a key, a class and moments, and its noise can be drawn.
    pub open spec fn valid(&self) -> bool {
        &&& self.draws.valid::<T>()
        &&& self.arith.valid::<T, P>()
        &&& self.chunks.valid::<T, P>()
        &&& self.solver_ops.valid::<P, S>()
        &&& copies::<P, K>(*self.copy)
        &&& maps2::<P, (usize, usize), T, SC>(self.score)
        &&& maps2::<T, i32, T, CV>(self.convert)
        &&& reads2::<P, P, D, GP>(self.gap)
        &&& computes1::<D, bool, NE>(self.differs)
        &&& computes1::<D, bool, NC>(self.control_differs)
        &&& forall|p: Vec<P>, range: (usize, usize), raw: Vec<T>| #[trigger]
            self.score.ensures((&p, &range), raw) && range.0 <= range.1 ==> raw@.len() == range.1
                - range.0
        &&& forall|raw: Vec<T>, g: i32, conv: Vec<T>| #[trigger]
            self.convert.ensures((&raw, &g), conv) ==> conv@.len() == raw@.len()
        &&& self.shapes@.len() == self.params@.len()
        &&& self.base_keys@.len() == self.params@.len()
        &&& self.es_classes@.len() == self.params@.len()
        &&& forall|i: int|
            0 <= i < self.shapes@.len() ==> drawable(
                NoiserKind::EggRoll.update_form(self.es_classes@[i], self.frozen.freeze_nonlora),
                #[trigger] self.shapes@[i],
                self.frozen.rank,
            )
        &&& self.frozen.solver.keeps_moments() ==> self.params@.len()
            <= self.noiser.opt_state.moments@.len()
        &&& 0 < self.cores
    }

    /// The parameters and the state of the optimizer that the check starts from.
    pub open spec fn start(&self) -> Stepped<P> {
        Stepped {
            params: self.params@,
            step: self.noiser.opt_state.step as int,
            moments: self.noiser.opt_state.moments@,
        }
    }

    /// The raw fitnesses of the samples `lo` to `hi`.
    pub open spec fn raw(&self, params: Seq<P>, lo: int, hi: int) -> Seq<T> {
        mapped2::<P, (usize, usize), T, SC>(self.score, params, (lo as usize, hi as usize))
    }

    /// The raw fitnesses of the first `n` chunks, under the parameters that the check starts from.
    pub open spec fn joined(&self, chunk: int, n: nat) -> Seq<T>
        decreases n,
    {
        if n == 0 {
            Seq::empty()
        } else {
            self.joined(chunk, (n - 1) as nat) + self.raw(self.params@, (n - 1) * chunk, n * chunk)
        }
    }

    /// Normalised fitnesses.
    pub open spec fn normalised(&self, raw: Seq<T>) -> Seq<T> {
        mapped2::<T, i32, T, CV>(self.convert, raw, self.frozen.group_size)
    }

    /// One update on the samples `lo` to `hi` with the given raw fitnesses.
    pub open spec fn updated(&self, at: Stepped<P>, raw: Seq<T>, lo: int, hi: int) -> Stepped<P> {
        if at.params.len() == 0 {
            at
        } else {
            self.solver_ops.step::<P, S>(
                self.frozen.solver,
                at.params,
                gradients_of::<T, S, P, N, SD, SL, B, H, Z2, A, SA, SB, E, G>(
                    NoiserKind::EggRoll,
                    *self.draws,
                    *self.arith,
                    *self.frozen,
                    self.shapes@,
                    self.base_keys@,
                    self.es_classes@,
                    self.normalised(raw),
                    sample_infos(lo, hi),
                ),
                at.step,
                at.moments,
            )
        }
    }

    /// The update on the whole batch.
    pub open spec fn whole(&self, size: int) -> Stepped<P> {
        self.updated(self.start(), self.raw(self.params@, 0, size), 0, size)
    }

    /// Whether a batch is the whole batch in chunks, with its normalised fitnesses.
    pub open spec fn is_plan(&self, batch: &Batch<T>, chunks: int, chunk: int) -> bool {
        let size = chunks * chunk;
        &&& batch.shapes == self.shapes
        &&& batch.base_keys == self.base_keys
        &&& batch.es_classes == self.es_classes
        &&& batch.scores@ == self.normalised(self.raw(self.params@, 0, size))
        &&& batch.thread_ids@ == thread_range(size as nat)
        &&& batch.epoch == 0
        &&& batch.noise_reuse == self.frozen.noise_reuse
        &&& batch.rank == self.frozen.rank
        &&& batch.freeze_nonlora == self.frozen.freeze_nonlora
        &&& batch.chunk == chunk
        &&& batch.accumulate == chunks
        &&& batch.cache is None
    }

    /// The update from the chunks of a batch.
    pub open spec fn accumulated(&self, batch: &Batch<T>) -> Stepped<P> {
        if self.params@.len() == 0 {
            self.start()
        } else {
            self.solver_ops.step::<P, S>(
                self.frozen.solver,
                self.params@,
                self.chunks.accumulated::<T, P>(batch),
                self.noiser.opt_state.step as int,
                self.noiser.opt_state.moments@,
            )
        }
    }

    /// The control after `n` chunks: each is scored under the parameters so far, normalised by
    /// itself, and followed by an update.
    pub open spec fn control_after(&self, chunk: int, n: nat) -> Stepped<P>
        decreases n,
    {
        if n == 0 {
            self.start()
        } else {
            let at = self.control_after(chunk, (n - 1) as nat);
            let (lo, hi) = ((n - 1) * chunk, n * chunk);
            self.updated(at, self.raw(at.params, lo, hi), lo, hi)
        }
    }

    /// A copy of the noiser's state.
    fn copy_noiser(&self) -> (noiser: NoiserParams<S, P>)
        requires
            copies::<P, K>(*self.copy),
        ensures
            noiser.sigma == self.noiser.sigma,
            noiser.opt_state.step == self.noiser.opt_state.step,
            noiser.opt_state.moments@ == self.noiser.opt_state.moments@,
    {
        let from = &self.noiser.opt_state.moments;
        let mut moments: Vec<MomentState<P>> = Vec::with_capacity(from.len());
        let mut i: usize = 0;
        while i < from.len()
            invariant
                copies::<P, K>(*self.copy),
                i <= from@.len(),
                moments@ == from@.take(i as int),
            decreases from@.len() - i,
        {
            moments.push(
                MomentState { m: apply1(self.copy, &from[i].m), v: apply1(self.copy, &from[i].v) },
            );
            i = i + 1;
            proof {
                assert(moments@ =~= from@.take(i as int));
            }
        }
        proof {
            assert(from@.take(i as int) =~= from@);
        }
        NoiserParams {
            sigma: self.noiser.sigma,
            opt_state: OptimizerState { step: self.noiser.opt_state.step, moments },
        }
    }

    /// One update on the samples `lo` to `hi`.
    fn update_on(
        &self,
        params: &Vec<P>,
        noiser: &mut NoiserParams<S, P>,
        raw: &Vec<T>,
        lo: usize,
        hi: usize,
    ) -> (out: Vec<P>)
        requires
            self.valid(),
            params@.len() == self.params@.len(),
            raw@.len() == hi - lo,
            lo <= hi <= i32::MAX,
            self.frozen.solver.keeps_moments() ==> params@.len() <= old(
                noiser,
            ).opt_state.moments@.len() && old(noiser).opt_state.step < i32::MAX,
        ensures
            out@.len() == params@.len(),
            ({
                let at = Stepped {
                    params: params@,
                    step: old(noiser).opt_state.step as int,
                    moments: old(noiser).opt_state.moments@,
                };
                let next = self.updated(at, raw@, lo as int, hi as int);
                &&& out@ == next.params
                &&& final(noiser).opt_state.step == next.step
                &&& final(noiser).opt_state.moments@ == next.moments
            }),
    {
        let conv: Vec<T> = map2(&self.convert, raw, &self.frozen.group_size);
        let infos: Vec<IterInfo> = make_infos(lo, hi);
        let out: Vec<P> = do_updates(
            NoiserKind::EggRoll,
            self.draws,
            self.arith,
            self.solver_ops,
            self.copy,
            self.frozen,
            noiser,
            params.as_slice(),
            self.shapes,
            self.base_keys,
            conv.as_slice(),
            infos.as_slice(),
            self.es_classes,
        );
        proof {
            assert(paired_len(self.shapes@.len(), self.base_keys@.len(), self.es_classes@.len())
                == params@.len());
            if params@.len() == 0 {
                assert(out@ =~= params@);
            }
        }
        out
    }

    /// Scores all chunks under the parameters that the check starts from.
    fn score_chunks(&self, chunks: usize, chunk: usize) -> (raw: Vec<T>)
        requires
            self.valid(),
            chunks * chunk <= usize::MAX,
        ensures
            raw@ == self.joined(chunk as int, chunks as nat),
            raw@.len() == chunks * chunk,
    {
        let mut raw: Vec<T> = Vec::new();
        let mut q: usize = 0;
        proof {
            assert(0 * chunk == 0);
        }
        while q < chunks
            invariant
                self.valid(),
                q <= chunks,
                chunks * chunk <= usize::MAX,
                raw@ == self.joined(chunk as int, q as nat),
                raw@.len() == q * chunk,
            decreases chunks - q,
        {
            proof {
                chunk_end(q as int, chunks as int, chunk as int);
            }
            let range: (usize, usize) = (q * chunk, q * chunk + chunk);
            let mut more: Vec<T> = map2(&self.score, self.params, &range);
            raw.append(&mut more);
            q = q + 1;
        }
        raw
    }

    /// Runs the control.
    #[verifier::spinoff_prover]
    fn run_control(&self, chunks: usize, chunk: usize) -> (params: Vec<P>)
        requires
            self.valid(),
            chunks * chunk <= i32::MAX,
            self.frozen.solver.keeps_moments() ==> self.noiser.opt_state.step + chunks <= i32::MAX,
        ensures
            params@ == self.control_after(chunk as int, chunks as nat).params,
    {
        let mut noiser: NoiserParams<S, P> = self.copy_noiser();
        let mut params: Vec<P> = copy_all(self.params.as_slice(), self.copy);
        let mut q: usize = 0;
        while q < chunks
            invariant
                self.valid(),
                q <= chunks,
                chunks * chunk <= i32::MAX,
                params@.len() == self.params@.len(),
                ({
                    let at = self.control_after(chunk as int, q as nat);
                    &&& params@ == at.params
                    &&& noiser.opt_state.step == at.step
                    &&& noiser.opt_state.moments@ == at.moments
                }),
                noiser.opt_state.moments@.len() == self.noiser.opt_state.moments@.len(),
                self.frozen.solver.keeps_moments() ==> noiser.opt_state.step
                    <= self.noiser.opt_state.step + q && self.noiser.opt_state.step + chunks
                    <= i32::MAX,
            decreases chunks - q,
        {
            proof {
                chunk_end(q as int, chunks as int, chunk as int);
                let at = self.control_after(chunk as int, q as nat);
                let (lo, hi) = (q * chunk, (q + 1) * chunk);
                let raw = self.raw(at.params, lo, hi);
                self.solver_ops.one_call_is_one_step::<P, S>(
                    self.frozen.solver,
                    at.params,
                    gradients_of::<T, S, P, N, SD, SL, B, H, Z2, A, SA, SB, E, G>(
                        NoiserKind::EggRoll,
                        *self.draws,
                        *self.arith,
                        *self.frozen,
                        self.shapes@,
                        self.base_keys@,
                        self.es_classes@,
                        self.normalised(raw),
                        sample_infos(lo, hi),
                    ),
                    at.step,
                    at.moments,
                );
            }
            let range: (usize, usize) = (q * chunk, q * chunk + chunk);
            let raw: Vec<T> = map2(&self.score, &params, &range);
            params = self.update_on(&params, &mut noiser, &raw, range.0, range.1);
            q = q + 1;
        }
        params
    }

    /// Whether a comparison is that of this check, `plan` being its batch in chunks: the gaps
    /// between the parameters after the update on the whole batch and after the three others, and
    /// what follows from them.
    pub open spec fn found(&self, c: Comparison<D>, plan: &Batch<T>) -> bool {
        let (size, chunks, chunk) = (c.size as int, c.chunks as int, c.chunk as int);
        let whole = self.whole(size).params;
        let parts = self.updated(self.start(), self.joined(chunk, chunks as nat), 0, size).params;
        let control = self.control_after(chunk, chunks as nat).params;
        let forward_differs = value1::<D, bool, NE>(self.differs, c.forward);
        let update_differs = value1::<D, bool, NE>(self.differs, c.update);
        let control_differs = value1::<D, bool, NC>(self.control_differs, c.control);
        &&& self.is_plan(plan, chunks, chunk)
        &&& plan.scores@.len() == size
        &&& plan.valid()
        &&& plan.chunks_held::<N, SL, SD>(
            self.chunks.normal,
            self.chunks.signed,
            self.chunks.scaled,
        )
        &&& c.forward == seen2::<P, P, D, GP>(self.gap, whole, parts)
        &&& c.update == seen2::<P, P, D, GP>(self.gap, whole, self.accumulated(plan).params)
        &&& c.control == seen2::<P, P, D, GP>(self.gap, whole, control)
        &&& c.verdict == (if forward_differs {
            Verdict::ForwardDiffers
        } else if update_differs {
            Verdict::UpdateDiffers
        } else if !control_differs {
            Verdict::ControlAgrees
        } else {
            Verdict::Pass
        })
    }

    /// Compares accumulation with the single batch; no comparison where too few samples are
    /// available.
    #[verifier::spinoff_prover]
    pub fn run_verify(&self, batch: usize, accumulate: usize, available: usize) -> (r: Option<
        Comparison<D>,
    >)
        requires
            self.valid(),
            available <= i32::MAX,
            self.frozen.solver.keeps_moments() ==> self.noiser.opt_state.step + available
                <= i32::MAX,
        ensures
            ({
                let k = if accumulate == 0 {
                    1
                } else {
                    accumulate as int
                };
                let size = verify_size(batch as int, k);
                match r {
                    None => size < k || size > available,
                    Some(c) => {
                        &&& k <= size <= available
                        &&& c.size == size
                        &&& c.chunks == k
                        &&& c.chunk * c.chunks == c.size
                        &&& exists|plan: &Batch<T>| #[trigger] self.found(c, plan)
                    },
                }
            }),
    {
        match verify_plan(batch, accumulate, available) {
            None => None,
            Some((size, chunks, chunk)) => {
                proof {
                    assert(chunks * chunk == chunk * chunks) by (nonlinear_arith);
                    assert(chunks <= chunk * chunks && chunk <= chunk * chunks) by (nonlinear_arith)
                        requires
                            1 <= chunk,
                            1 <= chunks,
                    ;
                }
                let raw: Vec<T> = map2(&self.score, self.params, &(0, size));
                let mut noiser: NoiserParams<S, P> = self.copy_noiser();
                let whole: Vec<P> = self.update_on(self.params, &mut noiser, &raw, 0, size);
                let raw_parts: Vec<T> = self.score_chunks(chunks, chunk);
                let mut noiser: NoiserParams<S, P> = self.copy_noiser();
                let parts: Vec<P> = self.update_on(self.params, &mut noiser, &raw_parts, 0, size);
                let conv: Vec<T> = map2(&self.convert, &raw, &self.frozen.group_size);
                let tids: Vec<i32> = thread_ids(size);
                let plan = Batch {
                    shapes: self.shapes,
                    base_keys: self.base_keys,
                    es_classes: self.es_classes,
                    scores: conv.as_slice(),
                    thread_ids: tids.as_slice(),
                    epoch: 0,
                    noise_reuse: self.frozen.noise_reuse,
                    rank: self.frozen.rank,
                    freeze_nonlora: self.frozen.freeze_nonlora,
                    chunk,
                    accumulate: chunks,
                    cores: self.cores,
                    cache: None,
                };
                let mut noiser: NoiserParams<S, P> = self.copy_noiser();
                proof {
                    assert forall|i: int| 0 <= i < plan.shapes@.len() implies plan.can_move(
                        i,
                        #[trigger] plan.shapes@[i],
                    ) by {}
                    assert(plan.valid());
                    assert(self.is_plan(&plan, chunks as int, chunk as int));
                }
                let summed: Vec<P> = self.chunks.accumulated_update_cached(
                    self.solver_ops,
                    self.frozen,
                    &mut noiser,
                    self.params.as_slice(),
                    &plan,
                );
                proof {
                    if self.params@.len() == 0 {
                        assert(summed@ =~= self.params@);
                    }
                    assert(summed@ == self.accumulated(&plan).params);
                    assert(whole@ == self.whole(size as int).params);
                }
                let control: Vec<P> = self.run_control(chunks, chunk);
                let forward: D = see2(&self.gap, &whole, &parts);
                let update: D = see2(&self.gap, &whole, &summed);
                let apart: D = see2(&self.gap, &whole, &control);
                let verdict = judge(
                    apply1(&self.differs, &forward),
                    apply1(&self.differs, &update),
                    apply1(&self.control_differs, &apart),
                );
                let c = Comparison {
                    size,
                    chunks,
                    chunk,
                    forward,
                    update,
                    control: apart,
                    verdict,
                };
                proof {
                    assert(self.found(c, &plan));
                }
                Some(c)
            },
        }
    }

    /// Accumulation passes: where both ways of updating compute alike, the update from the chunks
    /// of the batch is the update on the whole batch, and their gap is that of equal parameters.
    #[verifier::spinoff_prover]
    pub proof fn accumulation_leaves_no_gap(&self, c: Comparison<D>, plan: &Batch<T>)
        requires
            self.found(c, plan),
            c.chunk * c.chunks == c.size <= i32::MAX,
            self.shapes@.len() == self.params@.len(),
            self.base_keys@.len() == self.params@.len(),
            self.es_classes@.len() == self.params@.len(),
            self.frozen.solver.keeps_moments() ==> self.noiser.opt_state.step < i32::MAX,
            forall|i: int|
                0 <= i < self.shapes@.len() ==> compute_alike::<
                    T,
                    P,
                    N,
                    SL,
                    SD,
                    Z,
                    AL,
                    AD,
                    C,
                    B,
                    H,
                    Z2,
                    A,
                    SA,
                    SB,
                    E,
                    G,
                >(
                    *self.chunks,
                    *self.draws,
                    *self.arith,
                    #[trigger] self.shapes@[i],
                    self.frozen.rank,
                    c.size,
                ),
        ensures
            self.accumulated(plan) == self.whole(c.size as int),
            c.update == seen2::<P, P, D, GP>(
                self.gap,
                self.whole(c.size as int).params,
                self.whole(c.size as int).params,
            ),
    {
        let size = c.size as int;
        assert(c.chunks * c.chunk == size) by (nonlinear_arith)
            requires
                c.chunk * c.chunks == size,
        ;
        assert(plan.infos() =~= sample_infos(0, size));
        if self.params@.len() > 0 {
            accumulation_is_do_updates::<
                T,
                S,
                P,
                N,
                SL,
                SD,
                Z,
                AL,
                AD,
                C,
                B,
                H,
                Z2,
                A,
                SA,
                SB,
                E,
                G,
                O1,
                O2,
                O3,
                O4,
                O5,
            >(
                *self.chunks,
                *self.draws,
                *self.arith,
                *self.solver_ops,
                *self.frozen,
                self.params@,
                plan,
                self.noiser.opt_state.step,
                self.noiser.opt_state.moments@,
            );
        }
    }

    /// Chunks of samples score as the whole: where the fitness of a sample does not depend on the
    /// samples that are scored with it, forward passes over the chunks give the fitnesses of the
    /// whole batch, and the update on them is the update on the whole batch.
    pub proof fn chunks_score_as_the_whole(
        &self,
        chunk: int,
        n: nat,
        of_sample: spec_fn(int) -> T,
    )
        requires
            0 <= chunk,
            n * chunk <= usize::MAX,
            forall|lo: usize, hi: usize|
                lo <= hi ==> #[trigger] mapped2::<P, (usize, usize), T, SC>(
                    self.score,
                    self.params@,
                    (lo, hi),
                ) == Seq::new((hi - lo) as nat, |j: int| of_sample(lo + j)),
        ensures
            self.joined(chunk, n) == self.raw(self.params@, 0, n * chunk),
            self.updated(self.start(), self.joined(chunk, n), 0, n * chunk) == self.whole(
                n * chunk,
            ),
        decreases n,
    {
        if n == 0 {
            assert(0 * chunk == 0) by (nonlinear_arith);
            assert(self.joined(chunk, n) =~= self.raw(self.params@, 0, 0));
        } else {
            chunk_end(n - 1, n as int, chunk);
            self.chunks_score_as_the_whole(chunk, (n - 1) as nat, of_sample);
            let (lo, hi) = ((n - 1) * chunk, n * chunk);
            assert(lo as usize as int == lo && hi as usize as int == hi);
            assert(self.joined(chunk, n) =~= self.raw(self.params@, 0, hi));
        }
    }

    /// The control goes from chunk to chunk: parameters that start where the check starts, and each
    /// follow from the ones before by one update on the next chunk, scored under the ones before,
    /// are those of the control.
    pub proof fn control_goes_from_chunk_to_chunk(
        &self,
        chunk: int,
        n: nat,
        states: Seq<Stepped<P>>,
    )
        requires
            n < states.len(),
            states[0] == self.start(),
            forall|k: int|
                0 < k < states.len() ==> #[trigger] states[k] == self.updated(
                    states[k - 1],
                    self.raw(states[k - 1].params, (k - 1) * chunk, k * chunk),
                    (k - 1) * chunk,
                    k * chunk,
                ),
        ensures
            self.control_after(chunk, n) == states[n as int],
        decreases n,
    {
        if n > 0 {
            self.control_goes_from_chunk_to_chunk(chunk, (n - 1) as nat, states);
            assert(states[n as int] == self.updated(
                states[n - 1],
                self.raw(states[n - 1].params, (n - 1) * chunk, n * chunk),
                (n - 1) * chunk,
                n * chunk,
            ));
        }
    }

    /// A batch in one chunk is the single batch: forward passes over the chunks, and the control,
    /// give the fitnesses and the parameters of the whole batch.
    pub proof fn one_chunk_is_the_batch(&self, size: int)
        ensures
            self.joined(size, 1) == self.raw(self.params@, 0, size),
            self.control_after(size, 1) == self.whole(size),
    {
        reveal_with_fuel(EquivalenceOps::joined, 2);
        reveal_with_fuel(EquivalenceOps::control_after, 2);
        assert(0 * size == 0 && 1 * size == size) by (nonlinear_arith);
        assert(self.joined(size, 1) =~= self.raw(self.params@, 0, size));
    }
}

/// Where chunk `q` ends.
proof fn chunk_end(q: int, chunks: int, chunk: int)
    requires
        0 <= q < chunks,
        0 <= chunk,
    ensures
        0 <= q * chunk,
        q * chunk + chunk == (q + 1) * chunk,
        (q + 1) * chunk <= chunks * chunk,
{
    assert(0 <= q * chunk && q * chunk + chunk == (q + 1) * chunk && (q + 1) * chunk <= chunks
        * chunk) by (nonlinear_arith)
        requires
            0 <= q < chunks,
            0 <= chunk,
    ;
}

} // verus!
