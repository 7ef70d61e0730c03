//! Accumulated updates: a large batch is worked off in chunks, and the chunks'
//! gradients add up to that of the whole batch before one optimizer step.

use vstd::prelude::*;

use crate::lora_cache::{
    cached_noise_is_fresh, cached_source, dense_batch, dense_rows, paired_len, thread_range,
    LoraNoiseCache, LoraSource,
};
use crate::noise::{can_reuse, reuse_valid, IterInfo};
use crate::noiser::{FrozenNoiserParams, NoiserParams};
use crate::ops::{
    apply1, apply2, computes, computes1, computes2, held, reads4, see4, seen4, value1, value2,
};
use crate::perturb::{can_fit_lora, lora_fits};
use crate::solver::{AdamRule, SolverOps};
use crate::split::copy_slice;

verus! {

/// A batch and its parameters: what the gradients of all chunks are made of.
pub struct Batch<'a, T> {
    /// The shape of each parameter.
    pub shapes: &'a [[usize; 2]],
    /// The key of each parameter.
    pub base_keys: &'a [u64],
    /// The update class of each parameter.
    pub es_classes: &'a [i32],
    /// The score of each sample.
    pub scores: &'a [T],
    /// The thread id of each sample.
    pub thread_ids: &'a [i32],
    /// The sweep index.
    pub epoch: i32,
    /// How many epochs share their noise; zero for all.
    pub noise_reuse: i32,
    /// The rank of low-rank noise.
    pub rank: usize,
    /// Whether parameters with dense noise stay as they are.
    pub freeze_nonlora: bool,
    /// Samples per chunk.
    pub chunk: usize,
    /// Number of chunks.
    pub accumulate: usize,
    /// How many workers draw noise.
    pub cores: usize,
    /// Noise that was drawn before.
    pub cache: Option<&'a LoraNoiseCache<T>>,
}

/// The arithmetic of accumulated gradients.
pub struct AccumulateOps<N, SL, SD, Z, AL, AD, C> {
    /// A normal number of two unit draws.
    pub normal: N,
    /// Gives low-rank noise its sign.
    pub signed: SL,
    /// Gives dense noise its sign and scale.
    pub scaled: SD,
    /// Zero of a shape.
    pub zeros: Z,
    /// A sum plus a chunk of low-rank noise, weighted by the chunk's scores.
    pub add_lora: AL,
    /// A sum plus a chunk of dense noise, weighted by the chunk's scores.
    pub add_dense: AD,
    /// The negated gradient, rescaled by the size of the batch.
    pub rescale: C,
}

impl<'a, T: Copy> Batch<'a, T> {
    /// The samples have scores and thread ids, the noise of each parameter can be drawn, and a
    /// cache holds noise for all samples.
    pub open spec fn valid(&self) -> bool {
        &&& 0 < self.cores
        &&& self.accumulate * self.chunk <= self.scores@.len()
        &&& self.accumulate * self.chunk <= self.thread_ids@.len()
        &&& 2 * self.chunk <= usize::MAX
        &&& reuse_valid(IterInfo { epoch: self.epoch, thread_id: 0 }, self.noise_reuse)
        &&& forall|i: int|
            0 <= i < self.shapes@.len() ==> self.can_move(i, #[trigger] self.shapes@[i])
    }

    /// Tells whether the batch is valid.
    pub fn is_valid(&self) -> (ok: bool)
        ensures
            ok == self.valid(),
    {
        if self.cores == 0 || !can_reuse(
            &IterInfo { epoch: self.epoch, thread_id: 0 },
            self.noise_reuse,
        ) {
            return false;
        }
        let samples: usize = match self.accumulate.checked_mul(self.chunk) {
            Some(n) => n,
            None => {
                proof {
                    assert(self.scores.len() == self.scores@.len());
                }
                return false;
            },
        };
        if samples > self.scores.len() || samples > self.thread_ids.len() || self.chunk
            > usize::MAX / 2 {
            return false;
        }
        let mut i: usize = 0;
        while i < self.shapes.len()
            invariant
                samples == self.accumulate * self.chunk,
                i <= self.shapes@.len(),
                forall|k: int| 0 <= k < i ==> #[trigger] self.can_move(k, self.shapes@[k]),
            decreases self.shapes@.len() - i,
        {
            if !self.moves(i, samples) {
                proof {
                    assert(!self.can_move(i as int, self.shapes@[i as int]));
                }
                return false;
            }
            i = i + 1;
        }
        true
    }

    /// Whether the noise of a parameter can be drawn, or is cached for all samples.
    pub open spec fn can_move(&self, i: int, shape: [usize; 2]) -> bool {
        match self.class_of(i) {
            1 => lora_fits(shape@[0], shape@[1], self.rank) && (self.cache is Some
                ==> self.cache->Some_0.covers(i, self.accumulate * self.chunk)),
            0 => shape@[0] * shape@[1] <= usize::MAX,
            _ => true,
        }
    }

    fn moves(&self, i: usize, samples: usize) -> (ok: bool)
        requires
            i < self.shapes@.len(),
            samples == self.accumulate * self.chunk,
        ensures
            ok == self.can_move(i as int, self.shapes@[i as int]),
    {
        if i >= self.base_keys.len() || i >= self.es_classes.len() {
            return true;
        }
        let class: i32 = self.es_classes[i];
        let shape: [usize; 2] = self.shapes[i];
        if class == 1 {
            can_fit_lora(shape[0], shape[1], self.rank) && match self.cache {
                Some(cache) => cache.has_rows(i, samples),
                None => true,
            }
        } else if class == 0 && !self.freeze_nonlora {
            shape[0].checked_mul(shape[1]).is_some()
        } else {
            true
        }
    }

    /// The update class of a parameter. One that has no key or no class does not move, nor does
    /// one with dense noise where those are frozen.
    pub open spec fn class_of(&self, i: int) -> i32 {
        if i < paired_len(self.shapes@.len(), self.base_keys@.len(), self.es_classes@.len()) && !(
        self.freeze_nonlora && self.es_classes@[i] == 0) {
            self.es_classes@[i]
        } else {
            2
        }
    }

    /// The source of the low-rank noise of a parameter.
    pub open spec fn source(&self, i: int) -> LoraSource {
        LoraSource {
            key: self.base_keys@[i],
            rank: self.rank,
            a: self.shapes@[i]@[0],
            b: self.shapes@[i]@[1],
            epoch: self.epoch,
            noise_reuse: self.noise_reuse,
        }
    }

    /// The scores of chunk `k`.
    pub open spec fn chunk_scores(&self, k: int) -> Seq<T> {
        self.scores@.subrange(k * self.chunk, k * self.chunk + self.chunk)
    }

    /// The thread ids of chunk `k`.
    pub open spec fn chunk_tids(&self, k: int) -> Seq<i32> {
        self.thread_ids@.subrange(k * self.chunk, k * self.chunk + self.chunk)
    }

    /// The low-rank noise of a parameter in chunk `k`: from the cache where there is one.
    pub open spec fn lora_noise<N: Fn((u32, u32)) -> T, SL: Fn((i32, T)) -> T>(
        &self,
        normal: N,
        signed: SL,
        i: int,
        k: int,
    ) -> Seq<T> {
        match self.cache {
            Some(cache) => cache.buffers@[i]->Some_0@.subrange(
                k * self.chunk * cache.row_len(i),
                (k * self.chunk + self.chunk) * cache.row_len(i),
            ),
            None => self.source(i).noise::<T, N, SL>(normal, signed, self.chunk_tids(k)),
        }
    }

    /// Whether lists hold the scores of chunk `k` and its noise of parameter `i`, if that moves.
    pub open spec fn chunk_held<
        N: Fn((u32, u32)) -> T,
        SL: Fn((i32, T)) -> T,
        SD: Fn((i32, T)) -> T,
    >(&self, normal: N, signed: SL, scaled: SD, i: int, k: int) -> bool {
        match self.class_of(i) {
            1 => held(self.chunk_scores(k)) && held(
                self.lora_noise::<N, SL>(normal, signed, i, k),
            ),
            0 => held(self.chunk_scores(k)) && held(
                self.dense_noise::<N, SD>(normal, scaled, i, k),
            ),
            _ => true,
        }
    }

    /// Whether lists hold the scores and the noise of all chunks.
    pub open spec fn chunks_held<
        N: Fn((u32, u32)) -> T,
        SL: Fn((i32, T)) -> T,
        SD: Fn((i32, T)) -> T,
    >(&self, normal: N, signed: SL, scaled: SD) -> bool {
        forall|i: int, k: int|
            0 <= i < self.shapes@.len() && 0 <= k < self.accumulate
                ==> #[trigger] self.chunk_held::<N, SL, SD>(normal, signed, scaled, i, k)
    }

    /// The dense noise of a parameter in chunk `k`.
    pub open spec fn dense_noise<N: Fn((u32, u32)) -> T, SD: Fn((i32, T)) -> T>(
        &self,
        normal: N,
        scaled: SD,
        i: int,
        k: int,
    ) -> Seq<T> {
        dense_batch::<T, N, SD>(
            normal,
            scaled,
            self.base_keys@[i],
            self.chunk_tids(k),
            self.epoch,
            self.noise_reuse,
            self.shapes@[i]@[0] * self.shapes@[i]@[1],
        )
    }
}

/// Chunk `k` lies within the batch.
proof fn chunk_in_batch(k: int, chunk: int, accumulate: int)
    requires
        0 <= k < accumulate,
        0 <= chunk,
    ensures
        0 <= k * chunk,
        k * chunk + chunk <= accumulate * chunk,
{
    assert(0 <= k * chunk) by (nonlinear_arith)
        requires
            0 <= k,
            0 <= chunk,
    ;
    assert(k * chunk + chunk <= accumulate * chunk) by (nonlinear_arith)
        requires
            k + 1 <= accumulate,
            0 <= chunk,
    ;
}

/// The chunks are the batch, cut in order: chunk `k + 1` starts where chunk `k` ends, the first
/// at zero, and the last ends with the batch.
pub proof fn chunks_partition_batch(k: int, chunk: int, accumulate: int)
    requires
        0 <= k < accumulate,
        0 <= chunk,
    ensures
        0 * chunk == 0,
        0 <= k * chunk <= (k + 1) * chunk <= accumulate * chunk,
        (k + 1) * chunk == k * chunk + chunk,
        (accumulate - 1) * chunk + chunk == accumulate * chunk,
{
    chunk_in_batch(k, chunk, accumulate);
    assert((k + 1) * chunk == k * chunk + chunk) by (nonlinear_arith);
    assert((accumulate - 1) * chunk + chunk == accumulate * chunk) by (nonlinear_arith);
}

impl<N, SL, SD, Z, AL, AD, C> AccumulateOps<N, SL, SD, Z, AL, AD, C> {
    /// Each operation gives one result for each argument, whatever holds the numbers.
    pub open spec fn valid<T, P>(&self) -> bool where
        N: Fn((u32, u32)) -> T,
        SL: Fn((i32, T)) -> T,
        SD: Fn((i32, T)) -> T,
        Z: Fn(&[usize; 2]) -> P,
        AL: Fn(&P, &Vec<T>, &Vec<T>, &[usize; 2]) -> P,
        AD: Fn(&P, &Vec<T>, &Vec<T>, &[usize; 2]) -> P,
        C: Fn(&P, &usize) -> P,
     {
        &&& computes::<(u32, u32), T, N>(self.normal)
        &&& computes::<(i32, T), T, SL>(self.signed)
        &&& computes::<(i32, T), T, SD>(self.scaled)
        &&& computes1::<[usize; 2], P, Z>(self.zeros)
        &&& reads4::<P, T, T, [usize; 2], P, AL>(self.add_lora)
        &&& reads4::<P, T, T, [usize; 2], P, AD>(self.add_dense)
        &&& computes2::<P, usize, P, C>(self.rescale)
    }

    /// `before` plus what chunk `k` adds to the gradient of parameter `i`: its noise weighted by
    /// its scores, for a parameter that moves.
    pub open spec fn with_chunk<T: Copy, P>(
        &self,
        batch: &Batch<T>,
        before: P,
        i: int,
        k: int,
    ) -> P where
        N: Fn((u32, u32)) -> T,
        SL: Fn((i32, T)) -> T,
        SD: Fn((i32, T)) -> T,
        AL: Fn(&P, &Vec<T>, &Vec<T>, &[usize; 2]) -> P,
        AD: Fn(&P, &Vec<T>, &Vec<T>, &[usize; 2]) -> P,
     {
        if batch.class_of(i) == 1 {
            seen4::<P, T, T, [usize; 2], P, AL>(
                self.add_lora,
                before,
                batch.lora_noise::<N, SL>(self.normal, self.signed, i, k),
                batch.chunk_scores(k),
                batch.shapes@[i],
            )
        } else if batch.class_of(i) == 0 {
            seen4::<P, T, T, [usize; 2], P, AD>(
                self.add_dense,
                before,
                batch.dense_noise::<N, SD>(self.normal, self.scaled, i, k),
                batch.chunk_scores(k),
                batch.shapes@[i],
            )
        } else {
            before
        }
    }

    /// The sum of parameter `i` after the first `k` chunks, in order.
    pub open spec fn sum_after<T: Copy, P>(&self, batch: &Batch<T>, i: int, k: nat) -> P where
        N: Fn((u32, u32)) -> T,
        SL: Fn((i32, T)) -> T,
        SD: Fn((i32, T)) -> T,
        Z: Fn(&[usize; 2]) -> P,
        AL: Fn(&P, &Vec<T>, &Vec<T>, &[usize; 2]) -> P,
        AD: Fn(&P, &Vec<T>, &Vec<T>, &[usize; 2]) -> P,

        decreases k,
    {
        if k == 0 {
            value1::<[usize; 2], P, Z>(self.zeros, batch.shapes@[i])
        } else {
            self.with_chunk::<T, P>(
                batch,
                self.sum_after::<T, P>(batch, i, (k - 1) as nat),
                i,
                k - 1,
            )
        }
    }

    /// For each parameter the sum over all chunks.
    pub open spec fn total<T: Copy, P>(&self, batch: &Batch<T>) -> Seq<P> where
        N: Fn((u32, u32)) -> T,
        SL: Fn((i32, T)) -> T,
        SD: Fn((i32, T)) -> T,
        Z: Fn(&[usize; 2]) -> P,
        AL: Fn(&P, &Vec<T>, &Vec<T>, &[usize; 2]) -> P,
        AD: Fn(&P, &Vec<T>, &Vec<T>, &[usize; 2]) -> P,
     {
        Seq::new(
            batch.shapes@.len(),
            |i: int| self.sum_after::<T, P>(batch, i, batch.accumulate as nat),
        )
    }

    /// The accumulated gradients: for each parameter the sum over all chunks, negated and rescaled
    /// once.
    pub open spec fn accumulated<T: Copy, P>(&self, batch: &Batch<T>) -> Seq<P> where
        N: Fn((u32, u32)) -> T,
        SL: Fn((i32, T)) -> T,
        SD: Fn((i32, T)) -> T,
        Z: Fn(&[usize; 2]) -> P,
        AL: Fn(&P, &Vec<T>, &Vec<T>, &[usize; 2]) -> P,
        AD: Fn(&P, &Vec<T>, &Vec<T>, &[usize; 2]) -> P,
        C: Fn(&P, &usize) -> P,
     {
        Seq::new(
            batch.shapes@.len(),
            |i: int|
                value2::<P, usize, P, C>(
                    self.rescale,
                    self.total::<T, P>(batch)[i],
                    (batch.accumulate * batch.chunk) as usize,
                ),
        )
    }

    /// The sum of parameter `i` after chunk `k`.
    fn add_chunk<T: Copy, P>(&self, batch: &Batch<T>, before: &P, i: usize, k: usize) -> (after:
        Option<P>) where
        N: Fn((u32, u32)) -> T,
        SL: Fn((i32, T)) -> T,
        SD: Fn((i32, T)) -> T,
        Z: Fn(&[usize; 2]) -> P,
        AL: Fn(&P, &Vec<T>, &Vec<T>, &[usize; 2]) -> P,
        AD: Fn(&P, &Vec<T>, &Vec<T>, &[usize; 2]) -> P,
        C: Fn(&P, &usize) -> P,

        requires
            self.valid::<T, P>(),
            batch.valid(),
            i < batch.shapes@.len(),
            k < batch.accumulate,
        ensures
            self.with_chunk::<T, P>(batch, *before, i as int, k as int) == (match after {
                Some(sum) => sum,
                None => *before,
            }),
            batch.chunk_held::<N, SL, SD>(
                self.normal,
                self.signed,
                self.scaled,
                i as int,
                k as int,
            ),
    {
        proof {
            chunk_in_batch(k as int, batch.chunk as int, batch.accumulate as int);
            assert(batch.scores.len() == batch.scores@.len());
            assert(batch.shapes@[i as int]@.len() == 2);
        }
        if i >= batch.base_keys.len() || i >= batch.es_classes.len() {
            return None;
        }
        let class: i32 = batch.es_classes[i];
        let shape: [usize; 2] = batch.shapes[i];
        if class == 1 {
            let lo: usize = k * batch.chunk;
            let hi: usize = lo + batch.chunk;
            let scores: Vec<T> = copy_slice(batch.scores, lo, hi);
            let noise: Vec<T> = match batch.cache {
                Some(cache) => {
                    proof {
                        let r = cache.row_len(i as int);
                        assert(0 <= r) by (nonlinear_arith)
                            requires
                                r == (cache.shapes@[i as int]@[0] + cache.shapes@[i as int]@[1])
                                    * cache.rank,
                        ;
                        assert(hi * r <= batch.accumulate * batch.chunk * r) by (nonlinear_arith)
                            requires
                                hi <= batch.accumulate * batch.chunk,
                                0 <= r,
                        ;
                    }
                    cache.slice_rows(i, lo, hi)
                },
                None => {
                    let source = LoraSource {
                        key: batch.base_keys[i],
                        rank: batch.rank,
                        a: shape[0],
                        b: shape[1],
                        epoch: batch.epoch,
                        noise_reuse: batch.noise_reuse,
                    };
                    let tids: Vec<i32> = copy_slice(batch.thread_ids, lo, hi);
                    source.generate_lora_flat(
                        tids.as_slice(),
                        batch.cores,
                        &self.normal,
                        &self.signed,
                    )
                },
            };
            Some(see4(&self.add_lora, before, &noise, &scores, &shape))
        } else if class == 0 && !batch.freeze_nonlora {
            let lo: usize = k * batch.chunk;
            let hi: usize = lo + batch.chunk;
            let scores: Vec<T> = copy_slice(batch.scores, lo, hi);
            let tids: Vec<i32> = copy_slice(batch.thread_ids, lo, hi);
            let noise: Vec<T> = dense_rows(
                batch.base_keys[i],
                tids.as_slice(),
                batch.epoch,
                batch.noise_reuse,
                shape[0] * shape[1],
                &self.normal,
                &self.scaled,
            );
            Some(see4(&self.add_dense, before, &noise, &scores, &shape))
        } else {
            None
        }
    }

    /// The sums of all parameters over all chunks.
    pub fn sums<T: Copy, P>(&self, batch: &Batch<T>) -> (sums: Vec<P>) where
        N: Fn((u32, u32)) -> T,
        SL: Fn((i32, T)) -> T,
        SD: Fn((i32, T)) -> T,
        Z: Fn(&[usize; 2]) -> P,
        AL: Fn(&P, &Vec<T>, &Vec<T>, &[usize; 2]) -> P,
        AD: Fn(&P, &Vec<T>, &Vec<T>, &[usize; 2]) -> P,
        C: Fn(&P, &usize) -> P,

        requires
            self.valid::<T, P>(),
            batch.valid(),
        ensures
            sums@ == self.total::<T, P>(batch),
            batch.chunks_held::<N, SL, SD>(self.normal, self.signed, self.scaled),
    {
        let m: usize = batch.shapes.len();
        let mut sums: Vec<P> = Vec::with_capacity(m);
        let mut i: usize = 0;
        while i < m
            invariant
                self.valid::<T, P>(),
                m == batch.shapes@.len(),
                i <= m,
                sums@.len() == i,
                forall|p: int|
                    0 <= p < i ==> #[trigger] sums@[p] == self.sum_after::<T, P>(batch, p, 0),
            decreases m - i,
        {
            sums.push(apply1(&self.zeros, &batch.shapes[i]));
            i = i + 1;
        }
        let mut k: usize = 0;
        while k < batch.accumulate
            invariant
                self.valid::<T, P>(),
                batch.valid(),
                m == batch.shapes@.len(),
                k <= batch.accumulate,
                sums@.len() == m,
                forall|p: int, c: int|
                    0 <= p < m && 0 <= c < k ==> #[trigger] batch.chunk_held::<N, SL, SD>(
                        self.normal,
                        self.signed,
                        self.scaled,
                        p,
                        c,
                    ),
                forall|p: int|
                    0 <= p < m ==> #[trigger] sums@[p] == self.sum_after::<T, P>(
                        batch,
                        p,
                        k as nat,
                    ),
            decreases batch.accumulate - k,
        {
            let mut p: usize = 0;
            while p < m
                invariant
                    self.valid::<T, P>(),
                    batch.valid(),
                    m == batch.shapes@.len(),
                    k < batch.accumulate,
                    p <= m,
                    sums@.len() == m,
                    forall|q: int, c: int|
                        (0 <= q < m && 0 <= c < k) || (0 <= q < p && c == k)
                            ==> #[trigger] batch.chunk_held::<N, SL, SD>(
                            self.normal,
                            self.signed,
                            self.scaled,
                            q,
                            c,
                        ),
                    forall|q: int|
                        0 <= q < p ==> #[trigger] sums@[q] == self.sum_after::<T, P>(
                            batch,
                            q,
                            (k + 1) as nat,
                        ),
                    forall|q: int|
                        p <= q < m ==> #[trigger] sums@[q] == self.sum_after::<T, P>(
                            batch,
                            q,
                            k as nat,
                        ),
                decreases m - p,
            {
                match self.add_chunk(batch, &sums[p], p, k) {
                    Some(sum) => {
                        sums.set(p, sum);
                    },
                    None => {},
                }
                p = p + 1;
            }
            k = k + 1;
        }
        proof {
            assert(sums@ =~= self.total::<T, P>(batch));
        }
        sums
    }

    /// The accumulated gradients of all parameters.
    pub fn gradients<T: Copy, P>(&self, batch: &Batch<T>) -> (grads: Vec<P>) where
        N: Fn((u32, u32)) -> T,
        SL: Fn((i32, T)) -> T,
        SD: Fn((i32, T)) -> T,
        Z: Fn(&[usize; 2]) -> P,
        AL: Fn(&P, &Vec<T>, &Vec<T>, &[usize; 2]) -> P,
        AD: Fn(&P, &Vec<T>, &Vec<T>, &[usize; 2]) -> P,
        C: Fn(&P, &usize) -> P,

        requires
            self.valid::<T, P>(),
            batch.valid(),
        ensures
            grads@ == self.accumulated::<T, P>(batch),
            batch.chunks_held::<N, SL, SD>(self.normal, self.signed, self.scaled),
    {
        let sums: Vec<P> = self.sums(batch);
        let batch_size: usize = Self::batch_size(batch);
        let mut grads: Vec<P> = Vec::with_capacity(sums.len());
        let mut j: usize = 0;
        while j < sums.len()
            invariant
                self.valid::<T, P>(),
                batch_size == batch.accumulate * batch.chunk,
                sums@ == self.total::<T, P>(batch),
                j <= sums@.len(),
                grads@.len() == j,
                forall|p: int|
                    0 <= p < j ==> #[trigger] grads@[p] == self.accumulated::<T, P>(batch)[p],
            decreases sums@.len() - j,
        {
            grads.push(apply2(&self.rescale, &sums[j], &batch_size));
            j = j + 1;
        }
        proof {
            assert(grads@ =~= self.accumulated::<T, P>(batch));
        }
        grads
    }

    /// The number of samples.
    fn batch_size<T: Copy>(batch: &Batch<T>) -> (n: usize)
        requires
            batch.valid(),
        ensures
            n == batch.accumulate * batch.chunk,
    {
        proof {
            assert(batch.scores.len() == batch.scores@.len());
        }
        batch.accumulate * batch.chunk
    }

    /// The accumulated update of all parameters: their gradients over all chunks, then one
    /// optimizer step. Without parameters nothing happens.
    pub fn accumulated_update_cached<
        T: Copy,
        S: Copy,
        P,
        O1: Fn(&P, &P, &S) -> P,
        O2: Fn(&P, &P, &S) -> P,
        O3: Fn(&P, &P, &S) -> P,
        O4: Fn(&P, &P, &P, &AdamRule<S>) -> P,
        O5: Fn(&Vec<P>, &S) -> Vec<P>,
    >(
        &self,
        solver_ops: &SolverOps<O1, O2, O3, O4, O5>,
        frozen: &FrozenNoiserParams<S>,
        noiser: &mut NoiserParams<S, P>,
        params: &[P],
        batch: &Batch<T>,
    ) -> (out: Vec<P>) where
        N: Fn((u32, u32)) -> T,
        SL: Fn((i32, T)) -> T,
        SD: Fn((i32, T)) -> T,
        Z: Fn(&[usize; 2]) -> P,
        AL: Fn(&P, &Vec<T>, &Vec<T>, &[usize; 2]) -> P,
        AD: Fn(&P, &Vec<T>, &Vec<T>, &[usize; 2]) -> P,
        C: Fn(&P, &usize) -> P,

        requires
            self.valid::<T, P>(),
            solver_ops.valid::<P, S>(),
            batch.valid(),
            batch.shapes@.len() == params@.len(),
            batch.noise_reuse == frozen.noise_reuse,
            batch.rank == frozen.rank,
            batch.freeze_nonlora == frozen.freeze_nonlora,
            frozen.solver.keeps_moments() ==> params@.len() <= old(noiser).opt_state.moments@.len()
                && old(noiser).opt_state.step < i32::MAX,
        ensures
            batch.chunks_held::<N, SL, SD>(self.normal, self.signed, self.scaled),
            final(noiser).sigma == old(noiser).sigma,
            out@.len() == params@.len(),
            if params@.len() == 0 {
                out@.len() == 0 && *final(noiser) == *old(noiser)
            } else {
                let next = solver_ops.step::<P, S>(
                    frozen.solver,
                    params@,
                    self.accumulated::<T, P>(batch),
                    old(noiser).opt_state.step as int,
                    old(noiser).opt_state.moments@,
                );
                &&& out@ == next.params
                &&& final(noiser).opt_state.step == next.step
                &&& final(noiser).opt_state.moments@ == next.moments
            },
    {
        if params.len() == 0 {
            return Vec::new();
        }
        let grads: Vec<P> = self.gradients(batch);
        solver_ops.update(&frozen.solver, params, &grads, &mut noiser.opt_state)
    }
}

// ---------------------------------------------------------------------------
// Laws
// ---------------------------------------------------------------------------
/// Whether a cache, where there is one, holds the noise that would be drawn for the batch: the
/// noise is the same in all epochs, and that of each parameter was drawn for threads zero to the
/// size of the batch, which are the threads of the batch.
pub open spec fn cache_is_fresh<T: Copy, N: Fn((u32, u32)) -> T, SL: Fn((i32, T)) -> T>(
    normal: N,
    signed: SL,
    batch: &Batch<T>,
) -> bool {
    match batch.cache {
        None => true,
        Some(cache) => {
            let threads = thread_range((batch.accumulate * batch.chunk) as nat);
            &&& batch.noise_reuse == 0
            &&& batch.thread_ids@ == threads
            &&& cache.rank == batch.rank
            &&& forall|i: int|
                0 <= i < batch.shapes@.len() && batch.class_of(i) == 1 ==> {
                    &&& #[trigger] cache.shapes@[i] == batch.shapes@[i]
                    &&& cache.buffers@[i]->Some_0@ == cached_source(
                        batch.base_keys@[i],
                        batch.shapes@[i],
                        batch.rank,
                    ).noise::<T, N, SL>(normal, signed, threads)
                }
        },
    }
}

/// A cache changes nothing: the noise of each chunk is what would be drawn for its threads, in
/// every epoch.
pub proof fn cache_changes_nothing<T: Copy, N: Fn((u32, u32)) -> T, SL: Fn((i32, T)) -> T>(
    normal: N,
    signed: SL,
    batch: &Batch<T>,
    i: int,
    k: int,
)
    requires
        batch.valid(),
        cache_is_fresh::<T, N, SL>(normal, signed, batch),
        0 <= i < batch.shapes@.len(),
        batch.class_of(i) == 1,
        0 <= k < batch.accumulate,
    ensures
        batch.lora_noise::<N, SL>(normal, signed, i, k) == batch.source(i).noise::<T, N, SL>(
            normal,
            signed,
            batch.chunk_tids(k),
        ),
{
    if batch.cache is Some {
        chunk_in_batch(k, batch.chunk as int, batch.accumulate as int);
        assert(lora_fits(batch.shapes@[i]@[0], batch.shapes@[i]@[1], batch.rank));
        assert(batch.cache->Some_0.shapes@[i] == batch.shapes@[i]);
        cached_noise_is_fresh::<T, N, SL>(
            normal,
            signed,
            cached_source(batch.base_keys@[i], batch.shapes@[i], batch.rank),
            batch.epoch,
            (batch.accumulate * batch.chunk) as nat,
            k * batch.chunk,
            k * batch.chunk + batch.chunk,
        );
    }
}

} // verus!
