//! Perturbations of parameters: dense, low-rank and sparse.
//!
//! A low-rank perturbation of an `(a, b)` matrix is drawn as `a + b` rows of
//! `rank` normal numbers: first the rows of `B`, then those of `A`.

use vstd::arithmetic::div_mod::*;
use vstd::prelude::*;

use crate::noise::{
    normal_at, reuse_valid, sign_of, stepped, stream_for, stream_of, unit_of,
    DeterministicNoise, IterInfo,
};
use crate::ops::{apply, computes, value};
use crate::single::{
    round_single, rounded, rounding_error, scaled_draw_stays_below, spacing_bounds,
};
use crate::split::filled;

verus! {

// ---------------------------------------------------------------------------
// Masks
// ---------------------------------------------------------------------------
/// Whether a thread keeps its noise: the first two directions of each group are silent, and so
/// is everything where there are no groups.
pub open spec fn keeps_noise(thread_id: i32, group_size: i32) -> bool {
    group_size > 0 && thread_id >= 0 && thread_id as int % group_size as int >= 2
}

/// Whether a thread keeps its noise: the first two directions of each group are silent, and so
/// is everything where there are no groups.
pub fn mask(info: &IterInfo, group_size: i32) -> (keep: bool)
    ensures
        keep == keeps_noise(info.thread_id, group_size),
{
    group_size > 0 && info.thread_id >= 0 && info.thread_id % group_size >= 2
}

/// Which of `g` columns count in a fitness: all but the first two.
pub fn column_mask(g: usize) -> (keep: Vec<bool>)
    ensures
        keep@ == Seq::new(g as nat, |c: int| c >= 2),
{
    let mut keep: Vec<bool> = Vec::with_capacity(g);
    let mut c: usize = 0;
    while c < g
        invariant
            c <= g,
            keep@ == Seq::new(c as nat, |d: int| d >= 2),
        decreases g - c,
    {
        keep.push(c >= 2);
        c = c + 1;
        proof {
            assert(keep@ =~= Seq::new(c as nat, |d: int| d >= 2));
        }
    }
    keep
}

/// The directions whose noise is silent are those whose fitness does not count.
pub proof fn silent_directions_do_not_count(thread_id: i32, g: i32)
    requires
        0 <= thread_id < g,
    ensures
        keeps_noise(thread_id, g) == Seq::new(g as nat, |c: int| c >= 2)[thread_id as int],
{
    lemma_small_mod(thread_id as nat, g as nat);
}

// ---------------------------------------------------------------------------
// Draws
// ---------------------------------------------------------------------------
/// A number of a perturbation: silenced where the noise is not kept.
pub open spec fn kept<T, H: Fn(T) -> T>(hushed: H, keep: bool, x: T) -> T {
    if keep {
        x
    } else {
        value::<T, T, H>(hushed, x)
    }
}

/// Silences a number where the noise is not kept.
fn keep_or_hush<T, H: Fn(T) -> T>(hushed: &H, keep: bool, x: T) -> (y: T)
    requires
        computes::<T, T, H>(*hushed),
    ensures
        y == kept::<T, H>(*hushed, keep, x),
{
    if keep {
        x
    } else {
        apply(hushed, x)
    }
}

/// Dense noise: element `k` is what `scaled` makes of the sign and of normal number `k`, silenced
/// where it is not kept.
pub fn get_nonlora_update_params<
    T: Copy,
    F: Fn((u32, u32)) -> T,
    S: Fn((i32, T)) -> T,
    H: Fn(T) -> T,
>(
    key_seed: u64,
    info: &IterInfo,
    elems: usize,
    noise_reuse: i32,
    keep: bool,
    normal: &F,
    scaled: &S,
    hushed: &H,
) -> (out: Vec<T>)
    requires
        reuse_valid(*info, noise_reuse),
        computes::<(u32, u32), T, F>(*normal),
        computes::<(i32, T), T, S>(*scaled),
        computes::<T, T, H>(*hushed),
    ensures
        out@ == dense_noise::<T, F, S, H>(
            *normal,
            *scaled,
            *hushed,
            key_seed,
            *info,
            elems as nat,
            noise_reuse,
            keep,
        ),
{
    let (mut stream, sign): (DeterministicNoise, i32) = stream_for(key_seed, info, noise_reuse);
    let raw: Vec<T> = stream.normal_values(elems, normal);
    let mut out: Vec<T> = Vec::with_capacity(elems);
    let mut i: usize = 0;
    while i < elems
        invariant
            i <= elems == raw@.len(),
            out@.len() == i,
            computes::<(i32, T), T, S>(*scaled),
            computes::<T, T, H>(*hushed),
            forall|k: int|
                0 <= k < i ==> #[trigger] out@[k] == kept::<T, H>(
                    *hushed,
                    keep,
                    value::<(i32, T), T, S>(*scaled, (sign, raw@[k])),
                ),
        decreases elems - i,
    {
        out.push(keep_or_hush(hushed, keep, apply(scaled, (sign, raw[i]))));
        i = i + 1;
    }
    proof {
        assert(out@ =~= dense_noise::<T, F, S, H>(
            *normal,
            *scaled,
            *hushed,
            key_seed,
            *info,
            elems as nat,
            noise_reuse,
            keep,
        ));
    }
    out
}

/// Dense noise of `elems` elements.
pub open spec fn dense_noise<
    T,
    F: Fn((u32, u32)) -> T,
    S: Fn((i32, T)) -> T,
    H: Fn(T) -> T,
>(
    normal: F,
    scaled: S,
    hushed: H,
    key: u64,
    info: IterInfo,
    elems: nat,
    noise_reuse: i32,
    keep: bool,
) -> Seq<T> {
    Seq::new(
        elems,
        |k: int|
            kept::<T, H>(
                hushed,
                keep,
                value::<(i32, T), T, S>(
                    scaled,
                    (
                        sign_of(info.thread_id),
                        normal_at::<T, F>(normal, stream_of(key, info, noise_reuse), k as nat),
                    ),
                ),
            ),
    )
}

/// The two factors of a low-rank perturbation.
pub struct LoraNoise<T> {
    /// The `(a, rank)` factor, scaled.
    pub a: Vec<T>,
    /// The `(b, rank)` factor.
    pub b: Vec<T>,
}

/// The `(b, rank)` factor of a low-rank perturbation.
pub open spec fn lora_b<T, F: Fn((u32, u32)) -> T, H: Fn(T) -> T>(
    normal: F,
    hushed: H,
    key: u64,
    info: IterInfo,
    b: nat,
    rank: nat,
    noise_reuse: i32,
    keep: bool,
) -> Seq<T> {
    Seq::new(
        b * rank,
        |k: int|
            kept::<T, H>(
                hushed,
                keep,
                normal_at::<T, F>(normal, stream_of(key, info, noise_reuse), k as nat),
            ),
    )
}

/// The `(a, rank)` factor of a low-rank perturbation, drawn behind the `(b, rank)` factor.
pub open spec fn lora_a<
    T,
    F: Fn((u32, u32)) -> T,
    S: Fn((i32, T)) -> T,
    C: Fn(T) -> T,
    H: Fn(T) -> T,
>(
    normal: F,
    signed: S,
    scale: C,
    hushed: H,
    key: u64,
    info: IterInfo,
    a: nat,
    b: nat,
    rank: nat,
    noise_reuse: i32,
    keep: bool,
) -> Seq<T> {
    Seq::new(
        a * rank,
        |k: int|
            kept::<T, H>(
                hushed,
                keep,
                value::<T, T, C>(
                    scale,
                    value::<(i32, T), T, S>(
                        signed,
                        (
                            sign_of(info.thread_id),
                            normal_at::<T, F>(
                                normal,
                                stream_of(key, info, noise_reuse),
                                (b * rank + k) as nat,
                            ),
                        ),
                    ),
                ),
            ),
    )
}

/// The rows of both factors fit one buffer.
pub open spec fn lora_fits(a: usize, b: usize, rank: usize) -> bool {
    a + b <= usize::MAX && (a + b) * rank <= usize::MAX
}

/// Tells whether the rows of both factors fit one buffer.
pub fn can_fit_lora(a: usize, b: usize, rank: usize) -> (ok: bool)
    ensures
        ok == lora_fits(a, b, rank),
{
    match a.checked_add(b) {
        Some(rows) => rows.checked_mul(rank).is_some(),
        None => false,
    }
}

pub(crate) proof fn lora_sizes(a: usize, b: usize, rank: usize)
    requires
        lora_fits(a, b, rank),
    ensures
        0 <= b * rank <= (a + b) * rank,
        0 <= a * rank <= (a + b) * rank,
        a * rank + b * rank == (a + b) * rank,
{
    assert(a * rank + b * rank == (a + b) * rank) by (nonlinear_arith);
    assert(0 <= b * rank) by (nonlinear_arith)
        requires
            0 <= b,
            0 <= rank,
    ;
    assert(0 <= a * rank) by (nonlinear_arith)
        requires
            0 <= a,
            0 <= rank,
    ;
}

/// Draws a low-rank perturbation. An element of `A` is a normal number that `signed` gives the
/// sign and `scale` scales; one of `B` is a normal number. Both are silenced where the noise is
/// not kept.
pub fn get_lora_update_params<
    T: Copy,
    F: Fn((u32, u32)) -> T,
    S: Fn((i32, T)) -> T,
    C: Fn(T) -> T,
    H: Fn(T) -> T,
>(
    key_seed: u64,
    rank: usize,
    info: &IterInfo,
    a: usize,
    b: usize,
    noise_reuse: i32,
    keep: bool,
    normal: &F,
    signed: &S,
    scale: &C,
    hushed: &H,
) -> (noise: LoraNoise<T>)
    requires
        reuse_valid(*info, noise_reuse),
        lora_fits(a, b, rank),
        computes::<(u32, u32), T, F>(*normal),
        computes::<(i32, T), T, S>(*signed),
        computes::<T, T, C>(*scale),
        computes::<T, T, H>(*hushed),
    ensures
        noise.a@ == lora_a::<T, F, S, C, H>(
            *normal,
            *signed,
            *scale,
            *hushed,
            key_seed,
            *info,
            a as nat,
            b as nat,
            rank as nat,
            noise_reuse,
            keep,
        ),
        noise.b@ == lora_b::<T, F, H>(
            *normal,
            *hushed,
            key_seed,
            *info,
            b as nat,
            rank as nat,
            noise_reuse,
            keep,
        ),
{
    proof {
        lora_sizes(a, b, rank);
    }
    let (mut stream, sign): (DeterministicNoise, i32) = stream_for(key_seed, info, noise_reuse);
    let n: usize = (a + b) * rank;
    let split: usize = b * rank;
    let raw: Vec<T> = stream.normal_values(n, normal);
    let mut b_part: Vec<T> = Vec::with_capacity(split);
    let mut i: usize = 0;
    while i < split
        invariant
            i <= split <= raw@.len(),
            b_part@.len() == i,
            computes::<T, T, H>(*hushed),
            forall|k: int|
                0 <= k < i ==> #[trigger] b_part@[k] == kept::<T, H>(*hushed, keep, raw@[k]),
        decreases split - i,
    {
        b_part.push(keep_or_hush(hushed, keep, raw[i]));
        i = i + 1;
    }
    let mut a_part: Vec<T> = Vec::with_capacity(n - split);
    let mut j: usize = split;
    while j < n
        invariant
            split <= j <= n == raw@.len(),
            a_part@.len() == j - split,
            computes::<(i32, T), T, S>(*signed),
            computes::<T, T, C>(*scale),
            computes::<T, T, H>(*hushed),
            forall|k: int|
                0 <= k < j - split ==> #[trigger] a_part@[k] == kept::<T, H>(
                    *hushed,
                    keep,
                    value::<T, T, C>(
                        *scale,
                        value::<(i32, T), T, S>(*signed, (sign, raw@[split + k])),
                    ),
                ),
        decreases n - j,
    {
        let x: T = apply(scale, apply(signed, (sign, raw[j])));
        a_part.push(keep_or_hush(hushed, keep, x));
        j = j + 1;
    }
    proof {
        assert(b_part@ =~= lora_b::<T, F, H>(
            *normal,
            *hushed,
            key_seed,
            *info,
            b as nat,
            rank as nat,
            noise_reuse,
            keep,
        ));
        assert(a_part@ =~= lora_a::<T, F, S, C, H>(
            *normal,
            *signed,
            *scale,
            *hushed,
            key_seed,
            *info,
            a as nat,
            b as nat,
            rank as nat,
            noise_reuse,
            keep,
        ));
    }
    LoraNoise { a: a_part, b: b_part }
}

// ---------------------------------------------------------------------------
// Sparse noise
// ---------------------------------------------------------------------------
/// A sparse perturbation: values and the coordinates that they are added at.
pub struct SparseNoise<T> {
    /// The values, scaled.
    pub values: Vec<T>,
    /// The row of each value.
    pub idxa: Vec<i32>,
    /// The column of each value.
    pub idxb: Vec<i32>,
}

/// How many coordinates a sparse perturbation of an `(a, b)` matrix has.
pub open spec fn sparse_count(a: int, b: int) -> int {
    if a < b {
        b
    } else {
        a
    }
}

/// The joint index of coordinate `i`: a unit draw times the number of elements, both and their
/// product of single precision, rounded down.
pub open spec fn joint_index(state: u64, i: nat, elems: int) -> int {
    let u = unit_of(stepped(state, i + 1)) as nat;
    rounded(u * rounded(elems as nat)) as int / 0x100_0000
}

/// The rows of a sparse perturbation's coordinates.
pub open spec fn sparse_rows(state: u64, a: int, b: int) -> Seq<i32> {
    Seq::new(
        sparse_count(a, b) as nat,
        |i: int| (joint_index(state, i as nat, a * b) / b) as i32,
    )
}

/// The columns of a sparse perturbation's coordinates.
pub open spec fn sparse_columns(state: u64, a: int, b: int) -> Seq<i32> {
    Seq::new(
        sparse_count(a, b) as nat,
        |i: int| (joint_index(state, i as nat, a * b) % b) as i32,
    )
}

/// The values of a sparse perturbation, drawn behind the coordinates.
pub open spec fn sparse_values<T, F: Fn((u32, u32)) -> T, S: Fn((i32, T)) -> T>(
    normal: F,
    scaled: S,
    key: u64,
    info: IterInfo,
    a: int,
    b: int,
    noise_reuse: i32,
) -> Seq<T> {
    let behind = stepped(stream_of(key, info, noise_reuse), sparse_count(a, b) as nat);
    Seq::new(
        sparse_count(a, b) as nat,
        |i: int|
            value::<(i32, T), T, S>(
                scaled,
                (sign_of(info.thread_id), normal_at::<T, F>(normal, behind, i as nat)),
            ),
    )
}

/// A joint index is an index of the matrix, and its row and column are within its shape.
pub proof fn joint_index_in_matrix(state: u64, i: nat, a: int, b: int)
    requires
        0 < a,
        0 < b,
    ensures
        0 <= joint_index(state, i, a * b) < a * b,
        0 <= joint_index(state, i, a * b) / b < a,
        0 <= joint_index(state, i, a * b) % b < b,
        joint_index(state, i, a * b) / b * b + joint_index(state, i, a * b) % b == joint_index(
            state,
            i,
            a * b,
        ),
{
    let u = unit_of(stepped(state, i + 1)) as nat;
    let elems = a * b;
    assert(0 < elems) by (nonlinear_arith)
        requires
            0 < a,
            0 < b,
            elems == a * b,
    ;
    scaled_draw_stays_below(u, elems as nat);
    let j = joint_index(state, i, elems);
    lemma_fundamental_div_mod(j, b);
    assert(0 <= j / b < a) by (nonlinear_arith)
        requires
            0 <= j < a * b,
            0 < b,
    ;
    assert(j / b * b == b * (j / b)) by (nonlinear_arith);
}

/// Draws a sparse perturbation of an `(a, b)` matrix: the coordinates, then the values. Every
/// coordinate is within the matrix.
pub fn get_sparse_update_params<T: Copy, F: Fn((u32, u32)) -> T, S: Fn((i32, T)) -> T>(
    key_seed: u64,
    info: &IterInfo,
    a: usize,
    b: usize,
    noise_reuse: i32,
    normal: &F,
    scaled: &S,
) -> (noise: SparseNoise<T>)
    requires
        reuse_valid(*info, noise_reuse),
        b > 0 || a == 0,
        a * b <= i32::MAX,
        a <= i32::MAX,
        b <= i32::MAX,
        computes::<(u32, u32), T, F>(*normal),
        computes::<(i32, T), T, S>(*scaled),
    ensures
        noise.idxa@ == sparse_rows(stream_of(key_seed, *info, noise_reuse), a as int, b as int),
        noise.idxb@ == sparse_columns(stream_of(key_seed, *info, noise_reuse), a as int, b as int),
        noise.values@ == sparse_values::<T, F, S>(
            *normal,
            *scaled,
            key_seed,
            *info,
            a as int,
            b as int,
            noise_reuse,
        ),
        a > 0 ==> forall|i: int| 0 <= i < noise.idxa@.len() ==> 0 <= #[trigger] noise.idxa@[i] < a,
        a > 0 ==> forall|i: int| 0 <= i < noise.idxb@.len() ==> 0 <= #[trigger] noise.idxb@[i] < b,
{
    let (mut stream, sign): (DeterministicNoise, i32) = stream_for(key_seed, info, noise_reuse);
    let ghost start = stream.state();
    let k: usize = if a < b {
        b
    } else {
        a
    };
    let elems: u64 = (a * b) as u64;
    let single: u64 = round_single(elems);
    proof {
        rounding_error(elems as nat);
        spacing_bounds(elems as nat);
    }
    let mut idxa: Vec<i32> = Vec::with_capacity(k);
    let mut idxb: Vec<i32> = Vec::with_capacity(k);
    let mut i: usize = 0;
    while i < k
        invariant
            i <= k == sparse_count(a as int, b as int),
            b > 0 || a == 0,
            b <= i32::MAX,
            elems == a * b <= i32::MAX,
            single == rounded(elems as nat),
            single <= 2 * elems,
            idxa@.len() == i,
            idxb@.len() == i,
            stream.state() == stepped(start, i as nat),
            forall|j: int|
                0 <= j < i ==> #[trigger] idxa@[j] == joint_index(start, j as nat, a * b)
                    / b as int,
            forall|j: int|
                0 <= j < i ==> #[trigger] idxb@[j] == joint_index(start, j as nat, a * b)
                    % b as int,
        decreases k - i,
    {
        let u: u32 = stream.next_unit();
        proof {
            assert(0 <= u * single <= 0x100_0000 * 0xffff_ffff) by (nonlinear_arith)
                requires
                    0 <= u <= 0x100_0000,
                    0 <= single <= 0xffff_ffff,
            ;
            if elems > 0 {
                scaled_draw_stays_below(u as nat, elems as nat);
            }
        }
        let joint: u64 = round_single((u as u64) * single) / 0x100_0000;
        proof {
            if elems == 0 {
                assert(u * single == 0) by (nonlinear_arith)
                    requires
                        single == 0,
                ;
                rounding_error(0);
            }
            assert(joint <= 0x7fff_ffff);
        }
        let width: u64 = b as u64;
        proof {
            assert(joint as int / width as int <= joint) by (nonlinear_arith)
                requires
                    width >= 1,
                    joint >= 0,
            ;
            lemma_mod_bound(joint as int, width as int);
        }
        idxa.push((joint / width) as i32);
        idxb.push((joint % width) as i32);
        i = i + 1;
    }
    let raw: Vec<T> = stream.normal_values(k, normal);
    let mut values: Vec<T> = Vec::with_capacity(k);
    let mut v: usize = 0;
    while v < k
        invariant
            v <= k == raw@.len(),
            values@.len() == v,
            computes::<(i32, T), T, S>(*scaled),
            forall|q: int|
                0 <= q < v ==> #[trigger] values@[q] == value::<(i32, T), T, S>(
                    *scaled,
                    (sign, raw@[q]),
                ),
        decreases k - v,
    {
        values.push(apply(scaled, (sign, raw[v])));
        v = v + 1;
    }
    proof {
        if a > 0 {
            assert forall|j: int| 0 <= j < k implies 0 <= #[trigger] idxa@[j] < a by {
                joint_index_in_matrix(start, j as nat, a as int, b as int);
            }
            assert forall|j: int| 0 <= j < k implies 0 <= #[trigger] idxb@[j] < b by {
                joint_index_in_matrix(start, j as nat, a as int, b as int);
            }
        }
    }
    proof {
        assert(idxa@ =~= sparse_rows(start, a as int, b as int));
        assert(idxb@ =~= sparse_columns(start, a as int, b as int));
        assert(values@ =~= sparse_values::<T, F, S>(
            *normal,
            *scaled,
            key_seed,
            *info,
            a as int,
            b as int,
            noise_reuse,
        ));
    }
    SparseNoise { values, idxa, idxb }
}

/// Whether every coordinate of a sparse perturbation is within a matrix.
pub open spec fn coordinates_fit<T>(noise: SparseNoise<T>, rows: int, cols: int) -> bool {
    &&& noise.idxa@.len() == noise.values@.len()
    &&& noise.idxb@.len() == noise.values@.len()
    &&& forall|i: int| 0 <= i < noise.idxa@.len() ==> 0 <= #[trigger] noise.idxa@[i] < rows
    &&& forall|i: int| 0 <= i < noise.idxb@.len() ==> 0 <= #[trigger] noise.idxb@[i] < cols
}

/// Element `p` of rows of `out_cols` results, after the first `n` coordinates: each adds an input
/// of the same row times a value to the result in the coordinate's row.
pub open spec fn scattered<T, M: Fn((T, T, T)) -> T>(
    add: M,
    base: Seq<T>,
    x: Seq<T>,
    noise: SparseNoise<T>,
    in_cols: int,
    out_cols: int,
    p: int,
    n: nat,
) -> T
    decreases n,
{
    if n == 0 {
        base[p]
    } else {
        let before = scattered::<T, M>(
            add,
            base,
            x,
            noise,
            in_cols,
            out_cols,
            p,
            (n - 1) as nat,
        );
        if noise.idxa@[n - 1] == p % out_cols {
            value::<(T, T, T), T, M>(
                add,
                (before, x[p / out_cols * in_cols + noise.idxb@[n - 1]], noise.values@[n - 1]),
            )
        } else {
            before
        }
    }
}

/// Adds a sparse perturbation of a weight to the products of a batch: for each row and each
/// coordinate, the input in the coordinate's column times the value, to the result in the
/// coordinate's row. `add` makes a result of a result, an input and a value.
pub fn scatter_add<T: Copy, M: Fn((T, T, T)) -> T>(
    base: &mut Vec<T>,
    x: &[T],
    noise: &SparseNoise<T>,
    in_cols: usize,
    out_cols: usize,
    add: &M,
)
    requires
        computes::<(T, T, T), T, M>(*add),
        0 < in_cols,
        0 < out_cols,
        old(base)@.len() % out_cols as nat == 0,
        x@.len() == old(base)@.len() / out_cols as nat * in_cols as nat,
        coordinates_fit(*noise, out_cols as int, in_cols as int),
    ensures
        final(base)@ == Seq::new(
            old(base)@.len(),
            |p: int|
                scattered::<T, M>(
                    *add,
                    old(base)@,
                    x@,
                    *noise,
                    in_cols as int,
                    out_cols as int,
                    p,
                    noise.values@.len(),
                ),
        ),
{
    let total: usize = base.len();
    let inputs: usize = x.len();
    let rows: usize = total / out_cols;
    let k: usize = noise.values.len();
    let ghost base0 = base@;
    proof {
        lemma_fundamental_div_mod(total as int, out_cols as int);
        assert(out_cols * rows == rows * out_cols) by (nonlinear_arith);
    }
    let mut j: usize = 0;
    while j < rows
        invariant
            computes::<(T, T, T), T, M>(*add),
            0 < in_cols,
            0 < out_cols,
            total == rows * out_cols,
            inputs == rows * in_cols,
            x@.len() == inputs,
            k == noise.values@.len(),
            coordinates_fit(*noise, out_cols as int, in_cols as int),
            j <= rows,
            base@.len() == total == base0.len(),
            forall|p: int|
                0 <= p < total ==> #[trigger] base@[p] == scattered::<T, M>(
                    *add,
                    base0,
                    x@,
                    *noise,
                    in_cols as int,
                    out_cols as int,
                    p,
                    if p / out_cols as int >= j {
                        0
                    } else {
                        k as nat
                    },
                ),
        decreases rows - j,
    {
        let mut i: usize = 0;
        while i < k
            invariant
                computes::<(T, T, T), T, M>(*add),
                0 < in_cols,
                0 < out_cols,
                total == rows * out_cols,
                inputs == rows * in_cols,
                x@.len() == inputs,
                k == noise.values@.len(),
                coordinates_fit(*noise, out_cols as int, in_cols as int),
                j < rows,
                i <= k,
                base@.len() == total == base0.len(),
                forall|p: int|
                    0 <= p < total ==> #[trigger] base@[p] == scattered::<T, M>(
                        *add,
                        base0,
                        x@,
                        *noise,
                        in_cols as int,
                        out_cols as int,
                        p,
                        if p / out_cols as int > j {
                            0
                        } else if p / out_cols as int == j {
                            i as nat
                        } else {
                            k as nat
                        },
                    ),
            decreases k - i,
        {
            let ghost before = base@;
            let a: usize = noise.idxa[i] as usize;
            let b: usize = noise.idxb[i] as usize;
            proof {
                within_row(j as int, a as int, rows as int, out_cols as int);
                within_row(j as int, b as int, rows as int, in_cols as int);
            }
            let at: usize = j * out_cols + a;
            let from: usize = j * in_cols + b;
            base.set(at, apply(add, (base[at], x[from], noise.values[i])));
            proof {
                assert forall|p: int| 0 <= p < total implies #[trigger] base@[p] == scattered::<
                    T,
                    M,
                >(
                    *add,
                    base0,
                    x@,
                    *noise,
                    in_cols as int,
                    out_cols as int,
                    p,
                    if p / out_cols as int > j {
                        0
                    } else if p / out_cols as int == j {
                        (i + 1) as nat
                    } else {
                        k as nat
                    },
                ) by {
                    if p != at {
                        assert(base@[p] == before[p]);
                        if p / out_cols as int == j {
                            lemma_fundamental_div_mod(p, out_cols as int);
                            assert(out_cols * j == j * out_cols) by (nonlinear_arith);
                            assert(p % out_cols as int != a);
                        }
                    }
                }
            }
            i = i + 1;
        }
        j = j + 1;
    }
    proof {
        assert forall|p: int| 0 <= p < total implies #[trigger] base@[p] == scattered::<T, M>(
            *add,
            base0,
            x@,
            *noise,
            in_cols as int,
            out_cols as int,
            p,
            k as nat,
        ) by {
            assert(p / (out_cols as int) < rows) by (nonlinear_arith)
                requires
                    0 <= p < rows * out_cols,
                    0 < out_cols,
            ;
        }
        assert(base@ =~= Seq::new(
            base0.len(),
            |p: int|
                scattered::<T, M>(
                    *add,
                    base0,
                    x@,
                    *noise,
                    in_cols as int,
                    out_cols as int,
                    p,
                    noise.values@.len(),
                ),
        ));
    }
}

/// Where element `c` of row `j` stands.
proof fn within_row(j: int, c: int, rows: int, cols: int)
    requires
        0 <= j < rows,
        0 <= c < cols,
    ensures
        0 <= j * cols,
        j * cols + c < rows * cols,
        (j * cols + c) / cols == j,
        (j * cols + c) % cols == c,
{
    assert(0 <= j * cols && j * cols + cols <= rows * cols) by (nonlinear_arith)
        requires
            0 <= j < rows,
            0 < cols,
    ;
    lemma_fundamental_div_mod_converse(j * cols + c, cols, j, c);
}

/// Element `p` of a matrix of `cols` columns, after the first `n` coordinates of a sparse
/// perturbation: each adds its value at its place.
pub open spec fn matrix_element<T, M: Fn((T, T)) -> T>(
    add: M,
    zero: T,
    noise: SparseNoise<T>,
    cols: int,
    p: int,
    n: nat,
) -> T
    decreases n,
{
    if n == 0 {
        zero
    } else {
        let before = matrix_element::<T, M>(add, zero, noise, cols, p, (n - 1) as nat);
        if noise.idxa@[n - 1] * cols + noise.idxb@[n - 1] == p {
            value::<(T, T), T, M>(add, (before, noise.values@[n - 1]))
        } else {
            before
        }
    }
}

/// A sparse perturbation as a matrix: values at the same place add up.
pub fn sparse_matrix<T: Copy, M: Fn((T, T)) -> T>(
    noise: &SparseNoise<T>,
    a: usize,
    b: usize,
    zero: T,
    add: &M,
) -> (out: Vec<T>)
    requires
        computes::<(T, T), T, M>(*add),
        a * b <= usize::MAX,
        coordinates_fit(*noise, a as int, b as int),
    ensures
        out@ == Seq::new(
            (a * b) as nat,
            |p: int|
                matrix_element::<T, M>(*add, zero, *noise, b as int, p, noise.values@.len()),
        ),
{
    let total: usize = a * b;
    let mut out: Vec<T> = filled(zero, total);
    let k: usize = noise.values.len();
    let mut i: usize = 0;
    while i < k
        invariant
            computes::<(T, T), T, M>(*add),
            total == a * b,
            k == noise.values@.len(),
            coordinates_fit(*noise, a as int, b as int),
            i <= k,
            out@.len() == total,
            forall|p: int|
                0 <= p < total ==> #[trigger] out@[p] == matrix_element::<T, M>(
                    *add,
                    zero,
                    *noise,
                    b as int,
                    p,
                    i as nat,
                ),
        decreases k - i,
    {
        let row: usize = noise.idxa[i] as usize;
        let col: usize = noise.idxb[i] as usize;
        proof {
            within_row(row as int, col as int, a as int, b as int);
        }
        let at: usize = row * b + col;
        out.set(at, apply(add, (out[at], noise.values[i])));
        i = i + 1;
    }
    proof {
        assert(out@ =~= Seq::new(
            total as nat,
            |p: int|
                matrix_element::<T, M>(*add, zero, *noise, b as int, p, noise.values@.len()),
        ));
    }
    out
}

} // verus!
