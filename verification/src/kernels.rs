//! The element-wise kernels: normal noise, Poisson spike encoding and the
//! leaky-integrate-and-fire scan.
//!
//! A kernel is a loop over the threads of its launch. Rows may be pitched: row
//! `row` of a tensor starts at `row * s`, with `s` at least the row's length.

use vstd::arithmetic::div_mod::*;
use vstd::prelude::*;

use crate::ops::{apply, computes, value};
use crate::prng::{
    first_state, init_states, next_unit, next_units, round, seed_of_thread, thread_seed,
    unit_numerator, unit_pair, wrapping_sum, xorshift32,
};

verus! {

// ---------------------------------------------------------------------------
// Normal noise
// ---------------------------------------------------------------------------
/// How many elements a thread of the noise kernel writes.
pub const N_VALUES_PER_THREAD: usize = 128;

/// How many four-element vectors a thread of the noise kernel writes.
pub const VECTORS_PER_THREAD: usize = 32;

/// The state of a thread before its draw number `i`.
pub open spec fn state_before(thread_id: u32, seeds: Seq<u32>, i: nat) -> Seq<u32>
    decreases i,
{
    if i == 0 {
        first_state(thread_id, seeds)
    } else {
        round(round(state_before(thread_id, seeds, (i - 1) as nat)))
    }
}

/// Element `j` of the noise: the first or second number that `normal` makes of the draw that
/// the element belongs to.
pub open spec fn noise_element<T, F: Fn((u32, u32)) -> (T, T)>(
    normal: F,
    seeds: Seq<u32>,
    j: int,
) -> T {
    let pair = value::<(u32, u32), (T, T), F>(
        normal,
        unit_pair(state_before((j / 128) as u32, seeds, (j % 128 / 2) as nat)),
    );
    if j % 2 == 0 {
        pair.0
    } else {
        pair.1
    }
}

/// Fills `out` with normal noise: thread `t` writes the elements `t * 128` to `t * 128 + 127`,
/// two for each pair of unit draws. `normal` makes two numbers of the numerators of two draws.
pub fn prng_normal_half_kernel<T: Copy, F: Fn((u32, u32)) -> (T, T)>(
    out: &mut Vec<T>,
    total_threads: u32,
    normal: &F,
    seeds: [u32; 4],
)
    requires
        old(out)@.len() == total_threads * N_VALUES_PER_THREAD,
        computes::<(u32, u32), (T, T), F>(*normal),
    ensures
        final(out)@.len() == old(out)@.len(),
        forall|j: int|
            0 <= j < final(out)@.len() ==> #[trigger] final(out)@[j] == noise_element::<T, F>(
                *normal,
                seeds@,
                j,
            ),
{
    let n: usize = out.len();
    let mut t: u32 = 0;
    while t < total_threads
        invariant
            out@.len() == n,
            n == total_threads * 128,
            t <= total_threads,
            computes::<(u32, u32), (T, T), F>(*normal),
            forall|j: int|
                0 <= j < t * 128 ==> #[trigger] out@[j] == noise_element::<T, F>(
                    *normal,
                    seeds@,
                    j,
                ),
        decreases total_threads - t,
    {
        let mut st: [u32; 4] = init_states(t, seeds[0], seeds[1], seeds[2], seeds[3]);
        proof {
            assert(seq![seeds@[0], seeds@[1], seeds@[2], seeds@[3]] =~= seeds@);
        }
        let base: usize = t as usize * 128;
        let mut i: usize = 0;
        while i < 128
            invariant
                out@.len() == n,
                n == total_threads * 128,
                t < total_threads,
                base == t * 128,
                i <= 128,
                i % 2 == 0,
                st@ == state_before(t, seeds@, (i / 2) as nat),
                computes::<(u32, u32), (T, T), F>(*normal),
                forall|j: int|
                    0 <= j < base + i ==> #[trigger] out@[j] == noise_element::<T, F>(
                        *normal,
                        seeds@,
                        j,
                    ),
            decreases 128 - i,
        {
            let units = next_units(&mut st);
            let (n0, n1) = apply(normal, units);
            out.set(base + i, n0);
            out.set(base + i + 1, n1);
            proof {
                assert(st@ == state_before(t, seeds@, (i / 2 + 1) as nat));
                assert((base + i) / 128 == t && (base + i) % 128 == i);
                assert((base + i + 1) / 128 == t && (base + i + 1) % 128 == i + 1);
            }
            i = i + 2;
        }
        t = t + 1;
    }
}

// ---------------------------------------------------------------------------
// Pitched addresses
// ---------------------------------------------------------------------------
/// Where element `idx` of a frame stands: rows of `h` elements, each starting `s` apart.
pub open spec fn pitched(idx: int, h: int, s: int) -> int {
    idx / h * s + idx % h
}

/// Which element of a frame stands at address `j` of a stack of frames `step` apart.
pub open spec fn element_at(j: int, h: int, s: int, step: int) -> int {
    j % step / s * h + j % step % s
}

/// Whether address `j` of a stack of frames holds an element, not padding.
pub open spec fn holds_element(j: int, h: int, s: int, step: int) -> bool {
    j % step % s < h
}

/// The address of element `idx` in frame `tt`, and what stands at it.
proof fn address_of(tt: int, idx: int, rows: int, h: int, s: int)
    requires
        0 <= tt,
        0 < h <= s,
        0 <= idx < rows * h,
    ensures
        ({
            let step = rows * s;
            let j = tt * step + pitched(idx, h, s);
            &&& 0 <= pitched(idx, h, s) <= step - s + h - 1
            &&& 0 < step
            &&& tt * step >= 0
            &&& j / step == tt
            &&& j % step == pitched(idx, h, s)
            &&& element_at(j, h, s, step) == idx
            &&& holds_element(j, h, s, step)
        }),
{
    let row = idx / h;
    let col = idx % h;
    let step = rows * s;
    lemma_fundamental_div_mod(idx, h);
    assert(0 <= row < rows) by (nonlinear_arith)
        requires
            row == idx / h,
            0 <= idx < rows * h,
            0 < h,
    ;
    assert(0 <= row * s <= step - s) by (nonlinear_arith)
        requires
            0 <= row < rows,
            0 < s,
            step == rows * s,
    ;
    let base = row * s + col;
    let j = tt * step + base;
    assert(tt * step >= 0) by (nonlinear_arith)
        requires
            tt >= 0,
            step >= 0,
    ;
    lemma_fundamental_div_mod_converse(j, step, tt, base);
    lemma_fundamental_div_mod_converse(base, s, row, col);
    assert(row * h + col == idx) by (nonlinear_arith)
        requires
            idx == h * row + col,
    ;
}

/// An address that holds an element is the address of that element.
proof fn address_is_of(j: int, rows: int, h: int, s: int)
    requires
        0 <= j,
        0 < rows,
        0 < h <= s,
        holds_element(j, h, s, rows * s),
    ensures
        ({
            let step = rows * s;
            let idx = element_at(j, h, s, step);
            &&& 0 <= idx < rows * h
            &&& 0 <= j / step
            &&& j == j / step * step + pitched(idx, h, s)
        }),
{
    let step = rows * s;
    assert(0 < step) by (nonlinear_arith)
        requires
            0 < rows,
            0 < s,
            step == rows * s,
    ;
    let rem = j % step;
    lemma_fundamental_div_mod(j, step);
    lemma_fundamental_div_mod(rem, s);
    let row = rem / s;
    let col = rem % s;
    assert(0 <= row < rows) by (nonlinear_arith)
        requires
            row == rem / s,
            0 <= rem < rows * s,
            0 < s,
    ;
    lemma_fundamental_div_mod_converse(row * h + col, h, row, col);
    assert((row + 1) * h <= rows * h) by (nonlinear_arith)
        requires
            row + 1 <= rows,
            0 < h,
    ;
    assert((row + 1) * h == row * h + h) by (nonlinear_arith);
    assert(row * h >= 0) by (nonlinear_arith)
        requires
            row >= 0,
            h > 0,
    ;
    assert(step * (j / step) == j / step * step) by (nonlinear_arith);
    assert(s * row == row * s) by (nonlinear_arith);
    lemma_div_pos_is_pos(j, step);
}

/// No two elements of a stack of frames share an address, and no element stands on padding.
pub proof fn addresses_are_distinct(
    tt: int,
    idx: int,
    uu: int,
    jdx: int,
    rows: int,
    h: int,
    s: int,
)
    requires
        0 <= tt,
        0 <= uu,
        0 < h <= s,
        0 <= idx < rows * h,
        0 <= jdx < rows * h,
        tt * (rows * s) + pitched(idx, h, s) == uu * (rows * s) + pitched(jdx, h, s),
    ensures
        tt == uu,
        idx == jdx,
{
    address_of(tt, idx, rows, h, s);
    address_of(uu, jdx, rows, h, s);
}

// ---------------------------------------------------------------------------
// Poisson encoding
// ---------------------------------------------------------------------------
/// The generator state of element `idx` before its first time step.
pub open spec fn poisson_seed(idx: u32, seeds: Seq<u32>) -> u32 {
    wrapping_sum(
        wrapping_sum(seed_of_thread(idx), seeds[0] ^ seeds[1] ^ seeds[2] ^ seeds[3]),
        0x9E37_79B9,
    )
}

/// The generator state of element `idx` after `n` time steps.
pub open spec fn poisson_state(idx: u32, seeds: Seq<u32>, n: nat) -> u32
    decreases n,
{
    if n == 0 {
        poisson_seed(idx, seeds)
    } else {
        xorshift32(poisson_state(idx, seeds, (n - 1) as nat))
    }
}

/// What `fire` makes of the draw of element `idx` at time step `tt` and its intensity `p`.
pub open spec fn poisson_spike<T, F: Fn((u32, T)) -> T>(
    fire: F,
    seeds: Seq<u32>,
    idx: int,
    tt: int,
    p: T,
) -> T {
    value::<(u32, T), T, F>(
        fire,
        (unit_numerator(poisson_state(idx as u32, seeds, (tt + 1) as nat)), p),
    )
}

/// A stack of `t` frames with `total` elements each, whose rows of `h` elements start `s` apart,
/// fits into a buffer of `len` elements.
pub open spec fn frames_fit(len: nat, t: int, total: int, h: int, s: int) -> bool {
    len + s >= t * (total / h * s) + h
}

/// The frames are made of whole rows, and addresses stay within the machine's range.
pub open spec fn frame_valid(total: int, h: int, s: int) -> bool {
    &&& 0 < h <= s
    &&& 0 < total <= u32::MAX
    &&& total % h == 0
    &&& total / h * s <= usize::MAX
}

/// Poisson spike encoding: `t` frames of spikes, one draw per element and time step. `fire` makes
/// a spike of the numerator of a draw and the element's intensity.
pub fn poisson_encode_fused<T: Copy, F: Fn((u32, T)) -> T>(
    probs: &[T],
    out: &mut Vec<T>,
    total: usize,
    in_dim: usize,
    s: usize,
    t: usize,
    seeds: [u32; 4],
    fire: &F,
)
    requires
        frame_valid(total as int, in_dim as int, s as int),
        t <= 8,
        frames_fit(probs@.len(), 1, total as int, in_dim as int, s as int),
        frames_fit(old(out)@.len(), t as int, total as int, in_dim as int, s as int),
        computes::<(u32, T), T, F>(*fire),
    ensures
        final(out)@.len() == old(out)@.len(),
        forall|j: int|
            0 <= j < final(out)@.len() ==> #[trigger] final(out)@[j] == ({
                let step = total as int / in_dim as int * s;
                let idx = element_at(j, in_dim as int, s as int, step);
                if holds_element(j, in_dim as int, s as int, step) && j / step < t {
                    poisson_spike::<T, F>(*fire, seeds@, idx, j / step, probs@[j % step])
                } else {
                    old(out)@[j]
                }
            }),
{
    let rows: usize = total / in_dim;
    let ghost before = out@;
    let ghost h = in_dim as int;
    proof {
        lemma_fundamental_div_mod(total as int, h);
        assert(rows * h == total) by (nonlinear_arith)
            requires
                total == h * rows,
        ;
        assert(rows > 0) by (nonlinear_arith)
            requires
                rows * h == total,
                total > 0,
                h > 0,
        ;
    }
    let out_step: usize = rows * s;
    let len: usize = out.len();
    proof {
        assert forall|j: int|
            0 <= j && holds_element(
                j,
                h,
                s as int,
                out_step as int,
            ) implies 0 <= #[trigger] element_at(j, h, s as int, out_step as int) < total by {
            address_is_of(j, rows as int, h, s as int);
        }
    }
    let mixed: u32 = seeds[0] ^ seeds[1] ^ seeds[2] ^ seeds[3];
    let mut idx: usize = 0;
    while idx < total
        invariant
            out@.len() == before.len() == len,
            idx <= total,
            h == in_dim,
            rows > 0,
            rows * h == total,
            out_step == rows * s,
            frame_valid(total as int, h, s as int),
            t <= 8,
            mixed == seeds@[0] ^ seeds@[1] ^ seeds@[2] ^ seeds@[3],
            probs@.len() + s >= out_step + h,
            out@.len() + s >= t * out_step + h,
            computes::<(u32, T), T, F>(*fire),
            forall|j: int|
                0 <= j < out@.len() ==> #[trigger] out@[j] == (if holds_element(
                    j,
                    h,
                    s as int,
                    out_step as int,
                ) && j / (out_step as int) < t && element_at(j, h, s as int, out_step as int)
                    < idx {
                    poisson_spike::<T, F>(
                        *fire,
                        seeds@,
                        element_at(j, h, s as int, out_step as int),
                        j / (out_step as int),
                        probs@[j % (out_step as int)],
                    )
                } else {
                    before[j]
                }),
        decreases total - idx,
    {
        proof {
            address_of(0, idx as int, rows as int, h, s as int);
            assert(idx / in_dim * s <= out_step) by (nonlinear_arith)
                requires
                    idx < rows * h,
                    in_dim == h,
                    h > 0,
                    out_step == rows * s,
            ;
        }
        let base: usize = idx / in_dim * s + idx % in_dim;
        let p: T = probs[base];
        let seed: u64 = thread_seed(idx as u32) as u64;
        let x0: u64 = (seed + mixed as u64) % 0x1_0000_0000;
        let mut x: u32 = ((x0 + 0x9E37_79B9) % 0x1_0000_0000) as u32;
        let ghost seq_before = out@;
        let mut tt: usize = 0;
        while tt < t
            invariant
                out@.len() == before.len() == seq_before.len() == len,
                idx < total,
                tt <= t <= 8,
                h == in_dim,
                rows > 0,
                rows * h == total,
                out_step == rows * s,
                frame_valid(total as int, h, s as int),
                base == pitched(idx as int, h, s as int),
                base <= out_step - s + h - 1,
                base < probs@.len(),
                p == probs@[base as int],
                x == poisson_state(idx as u32, seeds@, tt as nat),
                out@.len() + s >= t * out_step + h,
                computes::<(u32, T), T, F>(*fire),
                forall|j: int|
                    0 <= j < out@.len() ==> #[trigger] out@[j] == (if holds_element(
                        j,
                        h,
                        s as int,
                        out_step as int,
                    ) && j / (out_step as int) < tt && element_at(j, h, s as int, out_step as int)
                        == idx {
                        poisson_spike::<T, F>(
                            *fire,
                            seeds@,
                            idx as int,
                            j / (out_step as int),
                            p,
                        )
                    } else {
                        seq_before[j]
                    }),
            decreases t - tt,
        {
            let u: u32 = next_unit(&mut x);
            let spike: T = apply(fire, (u, p));
            proof {
                assert(tt * out_step + out_step <= t * out_step) by (nonlinear_arith)
                    requires
                        tt + 1 <= t,
                ;
                address_of(tt as int, idx as int, rows as int, h, s as int);
            }
            let at: usize = tt * out_step + base;
            out.set(at, spike);
            proof {
                assert forall|j: int| 0 <= j < out@.len() implies #[trigger] out@[j] == (
                if holds_element(j, h, s as int, out_step as int) && j / (out_step as int) < tt + 1
                    && element_at(j, h, s as int, out_step as int) == idx {
                    poisson_spike::<T, F>(*fire, seeds@, idx as int, j / (out_step as int), p)
                } else {
                    seq_before[j]
                }) by {
                    if j != at && holds_element(j, h, s as int, out_step as int) && element_at(
                        j,
                        h,
                        s as int,
                        out_step as int,
                    ) == idx {
                        address_is_of(j, rows as int, h, s as int);
                        assert(j / (out_step as int) != tt);
                    }
                }
            }
            tt = tt + 1;
        }
        proof {
            assert forall|j: int| 0 <= j < out@.len() implies #[trigger] out@[j] == (
            if holds_element(j, h, s as int, out_step as int) && j / (out_step as int) < t
                && element_at(j, h, s as int, out_step as int) < idx + 1 {
                poisson_spike::<T, F>(
                    *fire,
                    seeds@,
                    element_at(j, h, s as int, out_step as int),
                    j / (out_step as int),
                    probs@[j % (out_step as int)],
                )
            } else {
                before[j]
            }) by {
                if holds_element(j, h, s as int, out_step as int) && element_at(
                    j,
                    h,
                    s as int,
                    out_step as int,
                ) == idx {
                    address_is_of(j, rows as int, h, s as int);
                    address_of(j / (out_step as int), idx as int, rows as int, h, s as int);
                }
            }
        }
        idx = idx + 1;
    }
}

// ---------------------------------------------------------------------------
// Leaky integrate and fire
// ---------------------------------------------------------------------------
/// The membrane of the neuron at `base` before time step `n`: `step` makes a spike and the next
/// membrane of a membrane and an input current.
pub open spec fn membrane<T, F: Fn((T, T)) -> (T, T)>(
    step: F,
    cur: Seq<T>,
    v0: Seq<T>,
    frame: int,
    base: int,
    n: nat,
) -> T
    decreases n,
{
    if n == 0 {
        v0[base]
    } else {
        value::<(T, T), (T, T), F>(
            step,
            (
                membrane::<T, F>(step, cur, v0, frame, base, (n - 1) as nat),
                cur[(n - 1) * frame + base],
            ),
        ).1
    }
}

/// The spike of the neuron at `base` at time step `tt`.
pub open spec fn lif_spike<T, F: Fn((T, T)) -> (T, T)>(
    step: F,
    cur: Seq<T>,
    v0: Seq<T>,
    frame: int,
    base: int,
    tt: nat,
) -> T {
    value::<(T, T), (T, T), F>(
        step,
        (membrane::<T, F>(step, cur, v0, frame, base, tt), cur[tt * frame + base]),
    ).0
}

/// The leaky-integrate-and-fire scan: `t` frames of input currents to `t` frames of spikes, each
/// neuron going through the time steps in order.
pub fn lif_fused<T: Copy, F: Fn((T, T)) -> (T, T)>(
    cur: &[T],
    v0: &[T],
    out: &mut Vec<T>,
    total: usize,
    h: usize,
    s: usize,
    t: usize,
    step: &F,
)
    requires
        frame_valid(total as int, h as int, s as int),
        frames_fit(cur@.len(), t as int, total as int, h as int, s as int),
        frames_fit(v0@.len(), 1, total as int, h as int, s as int),
        frames_fit(old(out)@.len(), t as int, total as int, h as int, s as int),
        computes::<(T, T), (T, T), F>(*step),
    ensures
        final(out)@.len() == old(out)@.len(),
        forall|j: int|
            0 <= j < final(out)@.len() ==> #[trigger] final(out)@[j] == ({
                let frame = total as int / h as int * s;
                if holds_element(j, h as int, s as int, frame) && j / frame < t {
                    lif_spike::<T, F>(*step, cur@, v0@, frame, j % frame, (j / frame) as nat)
                } else {
                    old(out)@[j]
                }
            }),
{
    let rows: usize = total / h;
    let ghost before = out@;
    proof {
        lemma_fundamental_div_mod(total as int, h as int);
        assert(rows * h == total) by (nonlinear_arith)
            requires
                total == h * rows,
        ;
        assert(rows > 0) by (nonlinear_arith)
            requires
                rows * h == total,
                total > 0,
                h > 0,
        ;
    }
    let frame: usize = rows * s;
    let len: usize = out.len();
    let cur_len: usize = cur.len();
    let ghost f = frame as int;
    proof {
        assert forall|j: int|
            0 <= j && holds_element(j, h as int, s as int, f) implies 0 <= #[trigger] element_at(
            j,
            h as int,
            s as int,
            f,
        ) < total by {
            address_is_of(j, rows as int, h as int, s as int);
        }
    }
    let mut idx: usize = 0;
    while idx < total
        invariant
            out@.len() == before.len() == len,
            cur@.len() == cur_len,
            idx <= total,
            f == frame,
            rows > 0,
            rows * h == total,
            frame == rows * s,
            frame_valid(total as int, h as int, s as int),
            cur@.len() + s >= t * frame + h,
            v0@.len() + s >= frame + h,
            out@.len() + s >= t * frame + h,
            computes::<(T, T), (T, T), F>(*step),
            forall|j: int|
                0 <= j < out@.len() ==> #[trigger] out@[j] == (if holds_element(
                    j,
                    h as int,
                    s as int,
                    f,
                ) && j / f < t && element_at(j, h as int, s as int, f) < idx {
                    lif_spike::<T, F>(*step, cur@, v0@, f, j % f, (j / f) as nat)
                } else {
                    before[j]
                }),
        decreases total - idx,
    {
        proof {
            address_of(0, idx as int, rows as int, h as int, s as int);
            assert(idx / h * s <= frame) by (nonlinear_arith)
                requires
                    idx < rows * h,
                    h > 0,
                    frame == rows * s,
            ;
        }
        let base: usize = idx / h * s + idx % h;
        let mut v: T = v0[base];
        let ghost seq_before = out@;
        let mut tt: usize = 0;
        while tt < t
            invariant
                out@.len() == before.len() == seq_before.len() == len,
                cur@.len() == cur_len,
                idx < total,
                tt <= t,
                f == frame,
                rows > 0,
                rows * h == total,
                frame == rows * s,
                frame_valid(total as int, h as int, s as int),
                base == pitched(idx as int, h as int, s as int),
                base <= frame - s + h - 1,
                v == membrane::<T, F>(*step, cur@, v0@, f, base as int, tt as nat),
                cur@.len() + s >= t * frame + h,
                out@.len() + s >= t * frame + h,
                computes::<(T, T), (T, T), F>(*step),
                forall|j: int|
                    0 <= j < out@.len() ==> #[trigger] out@[j] == (if holds_element(
                        j,
                        h as int,
                        s as int,
                        f,
                    ) && j / f < tt && element_at(j, h as int, s as int, f) == idx {
                        lif_spike::<T, F>(*step, cur@, v0@, f, base as int, (j / f) as nat)
                    } else {
                        seq_before[j]
                    }),
            decreases t - tt,
        {
            proof {
                assert(tt * frame + frame <= t * frame) by (nonlinear_arith)
                    requires
                        tt + 1 <= t,
                ;
                address_of(tt as int, idx as int, rows as int, h as int, s as int);
            }
            let at: usize = tt * frame + base;
            let (spike, next): (T, T) = apply(step, (v, cur[at]));
            v = next;
            out.set(at, spike);
            proof {
                assert forall|j: int| 0 <= j < out@.len() implies #[trigger] out@[j] == (
                if holds_element(j, h as int, s as int, f) && j / f < tt + 1 && element_at(
                    j,
                    h as int,
                    s as int,
                    f,
                ) == idx {
                    lif_spike::<T, F>(*step, cur@, v0@, f, base as int, (j / f) as nat)
                } else {
                    seq_before[j]
                }) by {
                    if j != at && holds_element(j, h as int, s as int, f) && element_at(
                        j,
                        h as int,
                        s as int,
                        f,
                    ) == idx {
                        address_is_of(j, rows as int, h as int, s as int);
                        assert(j / f != tt);
                    }
                }
            }
            tt = tt + 1;
        }
        proof {
            assert forall|j: int| 0 <= j < out@.len() implies #[trigger] out@[j] == (
            if holds_element(j, h as int, s as int, f) && j / f < t && element_at(
                j,
                h as int,
                s as int,
                f,
            ) < idx + 1 {
                lif_spike::<T, F>(*step, cur@, v0@, f, j % f, (j / f) as nat)
            } else {
                before[j]
            }) by {
                if holds_element(j, h as int, s as int, f) && element_at(
                    j,
                    h as int,
                    s as int,
                    f,
                ) == idx {
                    address_is_of(j, rows as int, h as int, s as int);
                    address_of(j / f, idx as int, rows as int, h as int, s as int);
                }
            }
        }
        idx = idx + 1;
    }
}

/// The generator of element `idx` runs on for ever: its state is not zero after any number of
/// time steps, provided its first state is not.
pub proof fn poisson_generator_stays_alive(idx: u32, seeds: Seq<u32>, n: nat)
    requires
        poisson_seed(idx, seeds) != 0,
    ensures
        poisson_state(idx, seeds, n) != 0,
    decreases n,
{
    if n > 0 {
        poisson_generator_stays_alive(idx, seeds, (n - 1) as nat);
        crate::prng::xorshift32_stays_alive(poisson_state(idx, seeds, (n - 1) as nat));
    }
}

} // verus!
