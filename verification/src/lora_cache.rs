//! Low-rank noise of whole batches, and the cache that keeps it over epochs.
//!
//! The noise of a batch is one buffer with a row per thread id: the `b * rank`
//! numbers of `B`, then the `a * rank` numbers of `A` with the thread's sign.

use vstd::arithmetic::div_mod::*;
use vstd::prelude::*;

use crate::noise::{
    normal_at, reuse_valid, sign_of, stream_for, stream_of, DeterministicNoise, IterInfo,
};
use crate::ops::{apply, computes, map_each, value};
use crate::perturb::{can_fit_lora, lora_a, lora_b, lora_fits, LoraNoise};
use crate::split::{copy_slice, slice_bounds, slice_start, slices_partition};

verus! {

/// What is needed to draw the noise of one parameter.
#[derive(Clone, Copy, Debug, PartialEq, Eq, Structural)]
pub struct LoraSource {
    /// The key of the parameter.
    pub key: u64,
    /// The rank of the factors.
    pub rank: usize,
    /// Rows of `A`.
    pub a: usize,
    /// Rows of `B`.
    pub b: usize,
    /// The sweep index.
    pub epoch: i32,
    /// How many epochs share their noise; zero for all.
    pub noise_reuse: i32,
}

impl LoraSource {
    /// The length of a thread's row.
    pub open spec fn row_len(self) -> int {
        (self.a + self.b) * self.rank
    }

    /// A row fits one buffer, and the epoch can be divided by the reuse factor.
    pub open spec fn valid(self) -> bool {
        &&& lora_fits(self.a, self.b, self.rank)
        &&& reuse_valid(IterInfo { epoch: self.epoch, thread_id: 0 }, self.noise_reuse)
    }

    /// Element `k` of the row of a thread.
    pub open spec fn element<T, F: Fn((u32, u32)) -> T, S: Fn((i32, T)) -> T>(
        self,
        normal: F,
        signed: S,
        thread_id: i32,
        k: int,
    ) -> T {
        let info = IterInfo { epoch: self.epoch, thread_id };
        let x = normal_at::<T, F>(normal, stream_of(self.key, info, self.noise_reuse), k as nat);
        if k < self.b * self.rank {
            x
        } else {
            value::<(i32, T), T, S>(signed, (sign_of(thread_id), x))
        }
    }

    /// The noise of the threads `tids`, row by row.
    pub open spec fn noise<T, F: Fn((u32, u32)) -> T, S: Fn((i32, T)) -> T>(
        self,
        normal: F,
        signed: S,
        tids: Seq<i32>,
    ) -> Seq<T> {
        Seq::new(
            (tids.len() * self.row_len()) as nat,
            |j: int|
                self.element::<T, F, S>(
                    normal,
                    signed,
                    tids[j / self.row_len()],
                    j % self.row_len(),
                ),
        )
    }

    /// The noise of a list of threads is that of its parts, one behind the other.
    pub proof fn noise_of_concat<T, F: Fn((u32, u32)) -> T, S: Fn((i32, T)) -> T>(
        self,
        normal: F,
        signed: S,
        left: Seq<i32>,
        right: Seq<i32>,
    )
        requires
            self.valid(),
        ensures
            self.noise::<T, F, S>(normal, signed, left + right) == self.noise::<T, F, S>(
                normal,
                signed,
                left,
            ) + self.noise::<T, F, S>(normal, signed, right),
    {
        let r = self.row_len();
        let l = left.len() as int;
        let m = right.len() as int;
        assert(0 <= r) by (nonlinear_arith)
            requires
                r == (self.a + self.b) * self.rank,
        ;
        row_counts(l, m, r);
        let whole = self.noise::<T, F, S>(normal, signed, left + right);
        let parts = self.noise::<T, F, S>(normal, signed, left) + self.noise::<T, F, S>(
            normal,
            signed,
            right,
        );
        assert forall|j: int| 0 <= j < whole.len() implies whole[j] == parts[j] by {
            row_of_concat(l, m, r, j);
        }
        assert(whole =~= parts);
    }

    /// The noise of one thread.
    fn row<T: Copy, F: Fn((u32, u32)) -> T, S: Fn((i32, T)) -> T>(
        self,
        thread_id: i32,
        normal: &F,
        signed: &S,
    ) -> (row: Vec<T>)
        requires
            self.valid(),
            computes::<(u32, u32), T, F>(*normal),
            computes::<(i32, T), T, S>(*signed),
        ensures
            row@ == self.noise::<T, F, S>(*normal, *signed, seq![thread_id]),
    {
        let info = IterInfo { epoch: self.epoch, thread_id };
        let (mut stream, sign): (DeterministicNoise, i32) = stream_for(
            self.key,
            &info,
            self.noise_reuse,
        );
        proof {
            crate::perturb::lora_sizes(self.a, self.b, self.rank);
        }
        let len: usize = (self.a + self.b) * self.rank;
        let split: usize = self.b * self.rank;
        let mut row: Vec<T> = stream.normal_values(len, normal);
        let ghost raw = row@;
        let mut k: usize = split;
        while k < len
            invariant
                split <= k <= len,
                row@.len() == raw.len() == len,
                computes::<(i32, T), T, S>(*signed),
                forall|j: int|
                    0 <= j < len ==> #[trigger] row@[j] == (if split <= j < k {
                        value::<(i32, T), T, S>(*signed, (sign, raw[j]))
                    } else {
                        raw[j]
                    }),
            decreases len - k,
        {
            row.set(k, apply(signed, (sign, row[k])));
            k = k + 1;
        }
        proof {
            let spec_row = self.noise::<T, F, S>(*normal, *signed, seq![thread_id]);
            assert(1 * self.row_len() == self.row_len());
            assert forall|j: int| 0 <= j < len implies row@[j] == spec_row[j] by {
                lemma_fundamental_div_mod_converse(j, len as int, 0, j);
            }
            assert(row@ =~= spec_row);
        }
        row
    }

    /// The noise of the threads `tids[lo..hi]`, row by row.
    pub fn rows<T: Copy, F: Fn((u32, u32)) -> T, S: Fn((i32, T)) -> T>(
        self,
        tids: &[i32],
        lo: usize,
        hi: usize,
        normal: &F,
        signed: &S,
    ) -> (out: Vec<T>)
        requires
            self.valid(),
            lo <= hi <= tids@.len(),
            computes::<(u32, u32), T, F>(*normal),
            computes::<(i32, T), T, S>(*signed),
        ensures
            out@ == self.noise::<T, F, S>(
                *normal,
                *signed,
                tids@.subrange(lo as int, hi as int),
            ),
    {
        let mut out: Vec<T> = Vec::new();
        let mut i: usize = lo;
        proof {
            assert(0 * self.row_len() == 0);
            assert(out@ =~= self.noise::<T, F, S>(
                *normal,
                *signed,
                tids@.subrange(lo as int, lo as int),
            ));
        }
        while i < hi
            invariant
                self.valid(),
                lo <= i <= hi <= tids@.len(),
                computes::<(u32, u32), T, F>(*normal),
                computes::<(i32, T), T, S>(*signed),
                out@ == self.noise::<T, F, S>(
                    *normal,
                    *signed,
                    tids@.subrange(lo as int, i as int),
                ),
            decreases hi - i,
        {
            let mut row: Vec<T> = self.row(tids[i], normal, signed);
            out.append(&mut row);
            proof {
                let left = tids@.subrange(lo as int, i as int);
                self.noise_of_concat::<T, F, S>(*normal, *signed, left, seq![tids@[i as int]]);
                assert(left + seq![tids@[i as int]] =~= tids@.subrange(lo as int, i + 1));
            }
            i = i + 1;
        }
        out
    }

    /// The noise of all threads, drawn by up to `cores` workers, each taking the next block of
    /// rows.
    pub fn generate_lora_flat<T: Copy, F: Fn((u32, u32)) -> T, S: Fn((i32, T)) -> T>(
        self,
        tids: &[i32],
        cores: usize,
        normal: &F,
        signed: &S,
    ) -> (flat: Vec<T>)
        requires
            self.valid(),
            0 < cores,
            2 * tids@.len() <= usize::MAX,
            computes::<(u32, u32), T, F>(*normal),
            computes::<(i32, T), T, S>(*signed),
        ensures
            flat@ == self.noise::<T, F, S>(*normal, *signed, tids@),
    {
        let n: usize = tids.len();
        let mut flat: Vec<T> = Vec::new();
        proof {
            assert(0 * self.row_len() == 0);
            assert(flat@ =~= self.noise::<T, F, S>(*normal, *signed, tids@.take(0)));
        }
        if n == 0 {
            proof {
                assert(tids@.take(0) =~= tids@);
            }
            return flat;
        }
        let workers: usize = if cores < n {
            cores
        } else {
            n
        };
        let ghost w = workers as int;
        let mut done: usize = 0;
        let mut t: usize = 0;
        proof {
            slices_partition(n as int, w, 0);
        }
        while t < workers
            invariant
                self.valid(),
                0 < n == tids@.len(),
                2 * n <= usize::MAX,
                0 < workers <= n,
                w == workers,
                t <= workers,
                done <= n,
                done == (if slice_start(n as int, w, t as int) < n {
                    slice_start(n as int, w, t as int)
                } else {
                    n as int
                }),
                computes::<(u32, u32), T, F>(*normal),
                computes::<(i32, T), T, S>(*signed),
                flat@ == self.noise::<T, F, S>(*normal, *signed, tids@.take(done as int)),
            decreases workers - t,
        {
            proof {
                slices_partition(n as int, w, t as int);
            }
            let (lo, hi): (usize, usize) = slice_bounds(n, workers, t);
            if lo < hi {
                let mut block: Vec<T> = self.rows(tids, lo, hi, normal, signed);
                flat.append(&mut block);
                proof {
                    let left = tids@.take(lo as int);
                    let right = tids@.subrange(lo as int, hi as int);
                    self.noise_of_concat::<T, F, S>(*normal, *signed, left, right);
                    assert(left + right =~= tids@.take(hi as int));
                }
                done = hi;
            }
            proof {
                next_slice(n as int, w, t as int);
            }
            t = t + 1;
        }
        proof {
            slices_partition(n as int, w, w - 1);
            next_slice(n as int, w, w - 1);
            assert(done == n);
            assert(tids@.take(n as int) =~= tids@);
        }
        flat
    }

    /// The factors of all threads: the rows of `A`, which `scale` scales, and those of `B`.
    pub fn batched_lora_noise<
        T: Copy,
        F: Fn((u32, u32)) -> T,
        S: Fn((i32, T)) -> T,
        C: Fn(T) -> T,
    >(self, tids: &[i32], cores: usize, normal: &F, signed: &S, scale: &C) -> (factors: LoraNoise<
        T,
    >)
        requires
            self.valid(),
            0 < cores,
            2 * tids@.len() <= usize::MAX,
            computes::<(u32, u32), T, F>(*normal),
            computes::<(i32, T), T, S>(*signed),
            computes::<T, T, C>(*scale),
        ensures
            factors.a@ == factor_a::<T, C>(
                self.noise::<T, F, S>(*normal, *signed, tids@),
                tids@.len(),
                self.a as int,
                self.b as int,
                self.rank as int,
                *scale,
            ),
            factors.b@ == factor_b(
                self.noise::<T, F, S>(*normal, *signed, tids@),
                tids@.len(),
                self.a as int,
                self.b as int,
                self.rank as int,
            ),
    {
        let flat: Vec<T> = self.generate_lora_flat(tids, cores, normal, signed);
        split_factors(&flat, tids.len(), self.a, self.b, self.rank, scale)
    }
}

// ---------------------------------------------------------------------------
// Factors
// ---------------------------------------------------------------------------
/// The elements `lo` to `lo + len` of each of `n` rows of length `row_len`, row by row.
pub open spec fn columns<T>(flat: Seq<T>, n: nat, row_len: int, lo: int, len: int) -> Seq<T> {
    Seq::new((n * len) as nat, |j: int| flat[(j / len) * row_len + lo + j % len])
}

/// The `(n, a, rank)` factor of `n` rows: their last `a * rank` numbers, scaled.
pub open spec fn factor_a<T, C: Fn(T) -> T>(
    flat: Seq<T>,
    n: nat,
    a: int,
    b: int,
    rank: int,
    scale: C,
) -> Seq<T> {
    columns(flat, n, (a + b) * rank, b * rank, a * rank).map_values(
        |x: T| value::<T, T, C>(scale, x),
    )
}

/// The `(n, b, rank)` factor of `n` rows: their first `b * rank` numbers.
pub open spec fn factor_b<T>(flat: Seq<T>, n: nat, a: int, b: int, rank: int) -> Seq<T> {
    columns(flat, n, (a + b) * rank, 0, b * rank)
}

/// The elements `lo` to `lo + len` of each of `n` rows of length `row_len`, row by row.
fn columns_of<T: Copy>(flat: &Vec<T>, n: usize, row_len: usize, lo: usize, len: usize) -> (out: Vec<
    T,
>)
    requires
        lo + len <= row_len,
        n * row_len <= flat@.len(),
    ensures
        out@ == columns(flat@, n as nat, row_len as int, lo as int, len as int),
{
    let mut out: Vec<T> = Vec::new();
    let mut i: usize = 0;
    let total: usize = flat.len();
    while i < n
        invariant
            total == flat@.len(),
            lo + len <= row_len,
            n * row_len <= total,
            i <= n,
            out@.len() == i * len,
            forall|j: int|
                0 <= j < out@.len() ==> #[trigger] out@[j] == flat@[(j / (len as int)) * row_len
                    + lo + j % (len as int)],
        decreases n - i,
    {
        proof {
            row_in_buffer(i as int, n as int, row_len as int);
            assert((i + 1) * len == i * len + len) by (nonlinear_arith);
        }
        let base: usize = i * row_len;
        let mut k: usize = 0;
        while k < len
            invariant
                total == flat@.len(),
                lo + len <= row_len,
                base == i * row_len,
                base + row_len <= total,
                k <= len,
                out@.len() == i * len + k,
                forall|j: int|
                    0 <= j < out@.len() ==> #[trigger] out@[j] == flat@[(j / (len as int)) * row_len
                        + lo + j % (len as int)],
            decreases len - k,
        {
            proof {
                lemma_fundamental_div_mod_converse(i * len + k, len as int, i as int, k as int);
            }
            out.push(flat[base + lo + k]);
            k = k + 1;
        }
        i = i + 1;
    }
    proof {
        assert(out@ =~= columns(flat@, n as nat, row_len as int, lo as int, len as int));
    }
    out
}

/// The factors of `n` rows.
fn split_factors<T: Copy, C: Fn(T) -> T>(
    flat: &Vec<T>,
    n: usize,
    a: usize,
    b: usize,
    rank: usize,
    scale: &C,
) -> (factors: LoraNoise<T>)
    requires
        lora_fits(a, b, rank),
        n * ((a + b) * rank) <= flat@.len(),
        computes::<T, T, C>(*scale),
    ensures
        factors.a@ == factor_a::<T, C>(flat@, n as nat, a as int, b as int, rank as int, *scale),
        factors.b@ == factor_b(flat@, n as nat, a as int, b as int, rank as int),
{
    proof {
        crate::perturb::lora_sizes(a, b, rank);
    }
    let row_len: usize = (a + b) * rank;
    let raw: Vec<T> = columns_of(flat, n, row_len, b * rank, a * rank);
    LoraNoise { a: map_each(&raw, scale), b: columns_of(flat, n, row_len, 0, b * rank) }
}

proof fn row_in_buffer(i: int, n: int, len: int)
    requires
        0 <= i < n,
        0 <= len,
    ensures
        0 <= i * len,
        i * len + len <= n * len,
{
    assert(0 <= i * len && i * len + len <= n * len) by (nonlinear_arith)
        requires
            0 <= i < n,
            0 <= len,
    ;
}

/// An element of a row of a thread is the element that is drawn for that thread.
proof fn element_of_row<T, F: Fn((u32, u32)) -> T, S: Fn((i32, T)) -> T>(
    source: LoraSource,
    normal: F,
    signed: S,
    tids: Seq<i32>,
    i: int,
    k: int,
)
    requires
        0 <= i < tids.len(),
        0 <= k < source.row_len(),
    ensures
        0 <= i * source.row_len() + k < tids.len() * source.row_len(),
        source.noise::<T, F, S>(normal, signed, tids)[i * source.row_len() + k] == source.element::<
            T,
            F,
            S,
        >(normal, signed, tids[i], k),
{
    let len = source.row_len();
    row_in_buffer(i, tids.len() as int, len);
    lemma_fundamental_div_mod_converse(i * len + k, len, i, k);
}

/// Row `i` of the columns `lo` to `lo + len` is that part of row `i`.
proof fn row_of_columns<T>(flat: Seq<T>, n: nat, row_len: int, lo: int, len: int, i: int, k: int)
    requires
        0 <= i < n,
        0 <= k < len,
    ensures
        0 <= i * len,
        i * len + len <= n * len,
        columns(flat, n, row_len, lo, len).subrange(i * len, i * len + len)[k] == flat[i * row_len
            + lo + k],
{
    row_in_buffer(i, n as int, len);
    lemma_fundamental_div_mod_converse(i * len + k, len, i, k);
}

/// The noise of a batch is that of its threads: row `i` of each factor of the batch is the factor
/// that a single draw gives for thread `tids[i]`.
#[verifier::spinoff_prover]
pub proof fn batched_rows_are_single_draws<
    T,
    F: Fn((u32, u32)) -> T,
    S: Fn((i32, T)) -> T,
    C: Fn(T) -> T,
    H: Fn(T) -> T,
>(
    source: LoraSource,
    normal: F,
    signed: S,
    scale: C,
    hushed: H,
    tids: Seq<i32>,
    i: int,
)
    requires
        source.valid(),
        0 <= i < tids.len(),
    ensures
        ({
            let flat = source.noise::<T, F, S>(normal, signed, tids);
            let info = IterInfo { epoch: source.epoch, thread_id: tids[i] };
            let (a, b, rank) = (source.a as int, source.b as int, source.rank as int);
            &&& factor_a::<T, C>(flat, tids.len(), a, b, rank, scale).subrange(
                i * (a * rank),
                i * (a * rank) + a * rank,
            ) == lora_a::<T, F, S, C, H>(
                normal,
                signed,
                scale,
                hushed,
                source.key,
                info,
                a as nat,
                b as nat,
                rank as nat,
                source.noise_reuse,
                true,
            )
            &&& factor_b(flat, tids.len(), a, b, rank).subrange(
                i * (b * rank),
                i * (b * rank) + b * rank,
            ) == lora_b::<T, F, H>(
                normal,
                hushed,
                source.key,
                info,
                b as nat,
                rank as nat,
                source.noise_reuse,
                true,
            )
        }),
{
    let flat = source.noise::<T, F, S>(normal, signed, tids);
    let info = IterInfo { epoch: source.epoch, thread_id: tids[i] };
    let (a, b, rank) = (source.a as int, source.b as int, source.rank as int);
    let (row_len, al, bl) = (source.row_len(), a * rank, b * rank);
    crate::perturb::lora_sizes(source.a, source.b, source.rank);
    let n = tids.len();
    row_in_buffer(i, n as int, al);
    row_in_buffer(i, n as int, bl);
    let whole_a = factor_a::<T, C>(flat, n, a, b, rank, scale);
    let single_a = lora_a::<T, F, S, C, H>(
        normal,
        signed,
        scale,
        hushed,
        source.key,
        info,
        a as nat,
        b as nat,
        rank as nat,
        source.noise_reuse,
        true,
    );
    assert forall|k: int| 0 <= k < al implies whole_a.subrange(i * al, i * al + al)[k]
        == single_a[k] by {
        row_of_columns(flat, n, row_len, bl, al, i, k);
        element_of_row::<T, F, S>(source, normal, signed, tids, i, bl + k);
    }
    assert(whole_a.subrange(i * al, i * al + al) =~= single_a);
    let whole_b = factor_b(flat, n, a, b, rank);
    let single_b = lora_b::<T, F, H>(
        normal,
        hushed,
        source.key,
        info,
        b as nat,
        rank as nat,
        source.noise_reuse,
        true,
    );
    assert forall|k: int| 0 <= k < bl implies whole_b.subrange(i * bl, i * bl + bl)[k]
        == single_b[k] by {
        row_of_columns(flat, n, row_len, 0, bl, i, k);
        element_of_row::<T, F, S>(source, normal, signed, tids, i, k);
    }
    assert(whole_b.subrange(i * bl, i * bl + bl) =~= single_b);
}

proof fn row_counts(l: int, m: int, r: int)
    requires
        0 <= l,
        0 <= m,
        0 <= r,
    ensures
        (l + m) * r == l * r + m * r,
        0 <= l * r,
        0 <= m * r,
{
    assert((l + m) * r == l * r + m * r) by (nonlinear_arith);
    assert(0 <= l * r) by (nonlinear_arith)
        requires
            0 <= l,
            0 <= r,
    ;
    assert(0 <= m * r) by (nonlinear_arith)
        requires
            0 <= m,
            0 <= r,
    ;
}

/// Where an element of `l + m` rows stands within the first `l` or the last `m`.
proof fn row_of_concat(l: int, m: int, r: int, j: int)
    requires
        0 <= l,
        0 <= m,
        0 <= r,
        0 <= j < (l + m) * r,
    ensures
        0 < r,
        j < l * r ==> 0 <= j / r < l,
        j >= l * r ==> j / r == l + (j - l * r) / r && j % r == (j - l * r) % r && 0 <= (j - l * r)
            / r < m,
{
    row_counts(l, m, r);
    assert(0 < r) by (nonlinear_arith)
        requires
            0 <= r,
            0 < (l + m) * r,
    ;
    if j < l * r {
        assert(0 <= j / r < l) by (nonlinear_arith)
            requires
                0 <= j < l * r,
                r > 0,
        ;
    } else {
        let i = j - l * r;
        lemma_fundamental_div_mod(i, r);
        assert(j == (l + i / r) * r + i % r) by (nonlinear_arith)
            requires
                i == r * (i / r) + i % r,
                j == l * r + i,
        ;
        lemma_fundamental_div_mod_converse(j, r, l + i / r, i % r);
        assert(0 <= i / r < m) by (nonlinear_arith)
            requires
                0 <= i < m * r,
                r > 0,
        ;
    }
}

proof fn next_slice(n: int, w: int, t: int)
    requires
        0 < n,
        0 <= t < w,
    ensures
        slice_start(n, w, t + 1) >= slice_start(n, w, t),
        slice_start(n, w, t) >= n ==> slice_start(n, w, t + 1) >= n,
        slice_start(n, w, w) >= n,
{
    slices_partition(n, w, t);
    slices_partition(n, w, w - 1);
    let p = crate::split::parts(n, w);
    assert((t + 1) * p == t * p + p) by (nonlinear_arith);
    assert(w * p == (w - 1) * p + p) by (nonlinear_arith);
}

// ---------------------------------------------------------------------------
// The cache
// ---------------------------------------------------------------------------
/// The thread ids from zero to `batch`.
pub open spec fn thread_range(batch: nat) -> Seq<i32> {
    Seq::new(batch, |i: int| i as i32)
}

/// The thread ids from zero to `batch`.
pub fn thread_ids(batch: usize) -> (tids: Vec<i32>)
    requires
        batch <= i32::MAX,
    ensures
        tids@ == thread_range(batch as nat),
{
    let mut tids: Vec<i32> = Vec::with_capacity(batch);
    let mut i: usize = 0;
    while i < batch
        invariant
            i <= batch <= i32::MAX,
            tids@ == thread_range(i as nat),
        decreases batch - i,
    {
        tids.push(i as i32);
        i = i + 1;
        proof {
            assert(tids@ =~= thread_range(i as nat));
        }
    }
    tids
}

/// Low-rank noise that is kept over epochs. With a reuse factor of zero the noise of a parameter
/// and a thread is the same in all epochs, so it is drawn once.
pub struct LoraNoiseCache<T> {
    /// The noise of each parameter, a row per thread; none for a parameter without low-rank noise.
    pub buffers: Vec<Option<Vec<T>>>,
    /// The shape of each parameter.
    pub shapes: Vec<[usize; 2]>,
    /// The number of threads.
    pub batch: usize,
    /// The rank of the factors.
    pub rank: usize,
}

/// The source of the cached noise of a parameter.
pub open spec fn cached_source(key: u64, shape: [usize; 2], rank: usize) -> LoraSource {
    LoraSource { key, rank, a: shape@[0], b: shape@[1], epoch: 0, noise_reuse: 0 }
}

impl<T: Copy> LoraNoiseCache<T> {
    /// The length of a thread's row in the noise of parameter `i`.
    pub open spec fn row_len(&self, i: int) -> int {
        (self.shapes@[i]@[0] + self.shapes@[i]@[1]) * self.rank
    }

    /// Whether parameter `i` has noise for `hi` threads.
    pub open spec fn covers(&self, i: int, hi: int) -> bool {
        &&& 0 <= i < self.buffers@.len()
        &&& i < self.shapes@.len()
        &&& lora_fits(self.shapes@[i]@[0], self.shapes@[i]@[1], self.rank)
        &&& self.buffers@[i] is Some
        &&& hi * self.row_len(i) <= self.buffers@[i]->Some_0@.len()
    }

    /// Tells whether parameter `param_idx` has noise for `hi` threads.
    pub fn has_rows(&self, param_idx: usize, hi: usize) -> (ok: bool)
        ensures
            ok == self.covers(param_idx as int, hi as int),
    {
        if param_idx >= self.buffers.len() || param_idx >= self.shapes.len() {
            return false;
        }
        let a: usize = self.shapes[param_idx][0];
        let b: usize = self.shapes[param_idx][1];
        if !can_fit_lora(a, b, self.rank) {
            return false;
        }
        let row_len: usize = (a + b) * self.rank;
        match &self.buffers[param_idx] {
            Some(buf) => match hi.checked_mul(row_len) {
                Some(needed) => needed <= buf.len(),
                None => {
                    proof {
                        assert(buf.len() == buf@.len());
                    }
                    false
                },
            },
            None => false,
        }
    }

    /// The noise of parameter `param_idx` for the threads `lo` to `hi`.
    pub fn slice_rows(&self, param_idx: usize, lo: usize, hi: usize) -> (out: Vec<T>)
        requires
            lo <= hi,
            self.covers(param_idx as int, hi as int),
        ensures
            out@ == self.buffers@[param_idx as int]->Some_0@.subrange(
                lo * self.row_len(param_idx as int),
                hi * self.row_len(param_idx as int),
            ),
    {
        let a: usize = self.shapes[param_idx][0];
        let b: usize = self.shapes[param_idx][1];
        let row_len: usize = (a + b) * self.rank;
        match &self.buffers[param_idx] {
            Some(buf) => {
                let len: usize = buf.len();
                proof {
                    assert(0 <= lo * row_len <= hi * row_len) by (nonlinear_arith)
                        requires
                            0 <= lo <= hi,
                            0 <= row_len,
                    ;
                }
                copy_slice(buf.as_slice(), lo * row_len, hi * row_len)
            },
            None => Vec::new(),
        }
    }

    /// The factors of parameter `param_idx` for the threads `lo` to `hi`.
    pub fn slice_upload<C: Fn(T) -> T>(
        &self,
        param_idx: usize,
        lo: usize,
        hi: usize,
        scale: &C,
    ) -> (factors: LoraNoise<T>)
        requires
            lo <= hi,
            self.covers(param_idx as int, hi as int),
            computes::<T, T, C>(*scale),
        ensures
            ({
                let i = param_idx as int;
                let rows = self.buffers@[i]->Some_0@.subrange(
                    lo * self.row_len(i),
                    hi * self.row_len(i),
                );
                let (a, b) = (self.shapes@[i]@[0] as int, self.shapes@[i]@[1] as int);
                let n = (hi - lo) as nat;
                &&& factors.a@ == factor_a::<T, C>(rows, n, a, b, self.rank as int, *scale)
                &&& factors.b@ == factor_b(rows, n, a, b, self.rank as int)
            }),
    {
        let rows: Vec<T> = self.slice_rows(param_idx, lo, hi);
        let a: usize = self.shapes[param_idx][0];
        let b: usize = self.shapes[param_idx][1];
        proof {
            let r = self.row_len(param_idx as int);
            assert(0 <= r) by (nonlinear_arith)
                requires
                    r == (a + b) * self.rank,
            ;
            row_counts(lo as int, hi - lo, r);
        }
        split_factors(&rows, hi - lo, a, b, self.rank, scale)
    }
}

/// The number of parameters that have a shape, a key and a class.
pub open spec fn paired_len(shapes: nat, keys: nat, classes: nat) -> nat {
    if shapes <= keys && shapes <= classes {
        shapes
    } else if keys <= classes {
        keys
    } else {
        classes
    }
}

/// Draws the noise of every parameter of class one for a whole batch of threads.
pub fn build_lora_noise_cache<T: Copy, F: Fn((u32, u32)) -> T, S: Fn((i32, T)) -> T>(
    shapes: &[[usize; 2]],
    base_keys: &[u64],
    es_classes: &[i32],
    batch: usize,
    rank: usize,
    noise_reuse: i32,
    cores: usize,
    normal: &F,
    signed: &S,
) -> (cache: LoraNoiseCache<T>)
    requires
        noise_reuse == 0,
        0 < cores,
        batch <= i32::MAX,
        2 * batch <= usize::MAX,
        forall|i: int|
            0 <= i < paired_len(shapes@.len(), base_keys@.len(), es_classes@.len())
                && es_classes@[i] == 1 ==> lora_fits(
                (#[trigger] shapes@[i])@[0],
                shapes@[i]@[1],
                rank,
            ),
        computes::<(u32, u32), T, F>(*normal),
        computes::<(i32, T), T, S>(*signed),
    ensures
        cache.shapes@ == shapes@,
        cache.batch == batch,
        cache.rank == rank,
        cache.buffers@.len() == paired_len(shapes@.len(), base_keys@.len(), es_classes@.len()),
        forall|i: int|
            0 <= i < cache.buffers@.len() ==> if es_classes@[i] == 1 {
                &&& (#[trigger] cache.buffers@[i]) is Some
                &&& cache.buffers@[i]->Some_0@ == cached_source(
                    base_keys@[i],
                    shapes@[i],
                    rank,
                ).noise::<T, F, S>(*normal, *signed, thread_range(batch as nat))
                &&& cache.covers(i, batch as int)
            } else {
                cache.buffers@[i] is None
            },
{
    let tids: Vec<i32> = thread_ids(batch);
    let mut buffers: Vec<Option<Vec<T>>> = Vec::new();
    let mut i: usize = 0;
    while i < shapes.len() && i < base_keys.len() && i < es_classes.len()
        invariant
            0 < cores,
            2 * batch <= usize::MAX,
            tids@ == thread_range(batch as nat),
            i <= paired_len(shapes@.len(), base_keys@.len(), es_classes@.len()),
            buffers@.len() == i,
            forall|k: int|
                0 <= k < paired_len(shapes@.len(), base_keys@.len(), es_classes@.len())
                    && es_classes@[k] == 1 ==> lora_fits(
                    (#[trigger] shapes@[k])@[0],
                    shapes@[k]@[1],
                    rank,
                ),
            computes::<(u32, u32), T, F>(*normal),
            computes::<(i32, T), T, S>(*signed),
            forall|k: int|
                0 <= k < i ==> if es_classes@[k] == 1 {
                    &&& (#[trigger] buffers@[k]) is Some
                    &&& buffers@[k]->Some_0@ == cached_source(
                        base_keys@[k],
                        shapes@[k],
                        rank,
                    ).noise::<T, F, S>(*normal, *signed, thread_range(batch as nat))
                } else {
                    buffers@[k] is None
                },
        decreases shapes@.len() - i,
    {
        if es_classes[i] == 1 {
            let source = LoraSource {
                key: base_keys[i],
                rank,
                a: shapes[i][0],
                b: shapes[i][1],
                epoch: 0,
                noise_reuse: 0,
            };
            let flat: Vec<T> = source.generate_lora_flat(tids.as_slice(), cores, normal, signed);
            buffers.push(Some(flat));
        } else {
            buffers.push(None);
        }
        i = i + 1;
    }
    let kept: Vec<[usize; 2]> = copy_slice(shapes, 0, shapes.len());
    proof {
        assert(kept@ =~= shapes@);
        assert forall|k: int| 0 <= k < i && es_classes@[k] == 1 implies batch * ((shapes@[k]@[0]
            + shapes@[k]@[1]) * rank) <= (#[trigger] buffers@[k])->Some_0@.len() by {
            assert(shapes@[k]@[0] + shapes@[k]@[1] >= 0);
            let r = (shapes@[k]@[0] + shapes@[k]@[1]) * rank;
            assert(batch * r >= 0) by (nonlinear_arith)
                requires
                    r == (shapes@[k]@[0] + shapes@[k]@[1]) * rank,
            ;
        }
    }
    LoraNoiseCache { buffers, shapes: kept, batch, rank }
}

/// Cached noise is fresh noise: the rows `lo` to `hi` of the noise of threads zero to `batch` are
/// the noise that is drawn for those threads in any epoch, with a reuse factor of zero.
pub proof fn cached_noise_is_fresh<T, F: Fn((u32, u32)) -> T, S: Fn((i32, T)) -> T>(
    normal: F,
    signed: S,
    source: LoraSource,
    epoch: i32,
    batch: nat,
    lo: int,
    hi: int,
)
    requires
        source.valid(),
        source.noise_reuse == 0,
        0 <= lo <= hi <= batch,
    ensures
        source.noise::<T, F, S>(normal, signed, thread_range(batch)).subrange(
            lo * source.row_len(),
            hi * source.row_len(),
        ) == (LoraSource { epoch, ..source }).noise::<T, F, S>(
            normal,
            signed,
            thread_range(batch).subrange(lo, hi),
        ),
{
    let all = thread_range(batch);
    let (left, mid, right) = (all.take(lo), all.subrange(lo, hi), all.skip(hi));
    source.noise_of_concat::<T, F, S>(normal, signed, left, mid);
    source.noise_of_concat::<T, F, S>(normal, signed, left + mid, right);
    assert(left + mid + right =~= all);
    let r = source.row_len();
    assert(0 <= r) by (nonlinear_arith)
        requires
            r == (source.a + source.b) * source.rank,
    ;
    row_counts(lo, hi - lo, r);
    row_counts(hi, batch - hi, r);
    let (nl, nm, nr) = (
        source.noise::<T, F, S>(normal, signed, left),
        source.noise::<T, F, S>(normal, signed, mid),
        source.noise::<T, F, S>(normal, signed, right),
    );
    assert((nl + nm + nr).subrange(lo * r, hi * r) =~= nm);
    let other = LoraSource { epoch, ..source };
    let fresh = other.noise::<T, F, S>(normal, signed, mid);
    assert forall|j: int| 0 <= j < nm.len() implies nm[j] == fresh[j] by {
        crate::noise::noise_without_reuse_is_fixed(source.key, mid[j / r], source.epoch, epoch);
    }
    assert(nm =~= fresh);
}

// ---------------------------------------------------------------------------
// Dense noise of a batch
// ---------------------------------------------------------------------------
/// Dense noise of `elems` elements for each of the threads `tids`, row by row.
pub open spec fn dense_batch<T, F: Fn((u32, u32)) -> T, S: Fn((i32, T)) -> T>(
    normal: F,
    signed: S,
    key: u64,
    tids: Seq<i32>,
    epoch: i32,
    noise_reuse: i32,
    elems: int,
) -> Seq<T> {
    Seq::new(
        (tids.len() * elems) as nat,
        |j: int|
            {
                let info = IterInfo { epoch, thread_id: tids[j / elems] };
                value::<(i32, T), T, S>(
                    signed,
                    (
                        sign_of(info.thread_id),
                        normal_at::<T, F>(
                            normal,
                            stream_of(key, info, noise_reuse),
                            (j % elems) as nat,
                        ),
                    ),
                )
            },
    )
}

/// The dense noise of a list of threads is that of its parts, one behind the other.
pub proof fn dense_of_concat<T, F: Fn((u32, u32)) -> T, S: Fn((i32, T)) -> T>(
    normal: F,
    signed: S,
    key: u64,
    left: Seq<i32>,
    right: Seq<i32>,
    epoch: i32,
    noise_reuse: i32,
    elems: int,
)
    requires
        0 <= elems,
    ensures
        dense_batch::<T, F, S>(normal, signed, key, left + right, epoch, noise_reuse, elems)
            == dense_batch::<T, F, S>(normal, signed, key, left, epoch, noise_reuse, elems)
            + dense_batch::<T, F, S>(normal, signed, key, right, epoch, noise_reuse, elems),
{
    let l = left.len() as int;
    let m = right.len() as int;
    row_counts(l, m, elems);
    let whole = dense_batch::<T, F, S>(
        normal,
        signed,
        key,
        left + right,
        epoch,
        noise_reuse,
        elems,
    );
    let parts = dense_batch::<T, F, S>(normal, signed, key, left, epoch, noise_reuse, elems)
        + dense_batch::<T, F, S>(normal, signed, key, right, epoch, noise_reuse, elems);
    assert forall|j: int| 0 <= j < whole.len() implies whole[j] == parts[j] by {
        row_of_concat(l, m, elems, j);
    }
    assert(whole =~= parts);
}

/// Draws dense noise for each of the threads `tids`, row by row.
pub fn dense_rows<T: Copy, F: Fn((u32, u32)) -> T, S: Fn((i32, T)) -> T>(
    key: u64,
    tids: &[i32],
    epoch: i32,
    noise_reuse: i32,
    elems: usize,
    normal: &F,
    signed: &S,
) -> (out: Vec<T>)
    requires
        reuse_valid(IterInfo { epoch, thread_id: 0 }, noise_reuse),
        computes::<(u32, u32), T, F>(*normal),
        computes::<(i32, T), T, S>(*signed),
    ensures
        out@ == dense_batch::<T, F, S>(
            *normal,
            *signed,
            key,
            tids@,
            epoch,
            noise_reuse,
            elems as int,
        ),
{
    let mut out: Vec<T> = Vec::new();
    let mut i: usize = 0;
    while i < tids.len()
        invariant
            reuse_valid(IterInfo { epoch, thread_id: 0 }, noise_reuse),
            i <= tids@.len(),
            out@.len() == i * elems,
            computes::<(u32, u32), T, F>(*normal),
            computes::<(i32, T), T, S>(*signed),
            forall|j: int|
                0 <= j < out@.len() ==> #[trigger] out@[j] == ({
                    let info = IterInfo { epoch, thread_id: tids@[j / (elems as int)] };
                    value::<(i32, T), T, S>(
                        *signed,
                        (
                            sign_of(info.thread_id),
                            normal_at::<T, F>(
                                *normal,
                                stream_of(key, info, noise_reuse),
                                (j % (elems as int)) as nat,
                            ),
                        ),
                    )
                }),
        decreases tids@.len() - i,
    {
        let info = IterInfo { epoch, thread_id: tids[i] };
        let (mut stream, sign): (DeterministicNoise, i32) = stream_for(key, &info, noise_reuse);
        let raw: Vec<T> = stream.normal_values(elems, normal);
        let ghost base = out@.len();
        let mut k: usize = 0;
        while k < elems
            invariant
                k <= elems == raw@.len(),
                i < tids@.len(),
                base == i * elems,
                out@.len() == base + k,
                info == (IterInfo { epoch, thread_id: tids@[i as int] }),
                sign == sign_of(info.thread_id),
                computes::<(i32, T), T, S>(*signed),
                forall|j: int|
                    0 <= j < elems ==> #[trigger] raw@[j] == normal_at::<T, F>(
                        *normal,
                        stream_of(key, info, noise_reuse),
                        j as nat,
                    ),
                forall|j: int|
                    0 <= j < out@.len() ==> #[trigger] out@[j] == ({
                        let info = IterInfo { epoch, thread_id: tids@[j / (elems as int)] };
                        value::<(i32, T), T, S>(
                            *signed,
                            (
                                sign_of(info.thread_id),
                                normal_at::<T, F>(
                                    *normal,
                                    stream_of(key, info, noise_reuse),
                                    (j % (elems as int)) as nat,
                                ),
                            ),
                        )
                    }),
            decreases elems - k,
        {
            proof {
                lemma_fundamental_div_mod_converse(base + k, elems as int, i as int, k as int);
            }
            out.push(apply(signed, (sign, raw[k])));
            k = k + 1;
        }
        proof {
            assert((i + 1) * elems == i * elems + elems) by (nonlinear_arith);
        }
        i = i + 1;
    }
    proof {
        assert(out@ =~= dense_batch::<T, F, S>(
            *normal,
            *signed,
            key,
            tids@,
            epoch,
            noise_reuse,
            elems as int,
        ));
    }
    out
}

} // verus!
