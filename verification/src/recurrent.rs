//! Recurrences over time: scans with resets, spiking layers, token shifts, and
//! the bookkeeping of recurrent mixers.

use vstd::arithmetic::div_mod::*;
use vstd::prelude::*;

use crate::ops::{
    apply1, apply2, apply3, computes2, computes3, copies, value2, value3,
};

verus! {

// ---------------------------------------------------------------------------
// Scans
// ---------------------------------------------------------------------------
/// The state behind time step `n - 1`, from `s0`: a state is replaced by `zero` in front of a step
/// that starts a new sequence.
pub open spec fn state_after<S, A, O, F: Fn(&S, &A, &usize) -> (S, O)>(
    step: F,
    gates: A,
    s0: S,
    zero: S,
    new_starts: Seq<bool>,
    n: nat,
) -> S
    decreases n, 0nat,
{
    if n == 0 {
        s0
    } else {
        value3::<S, A, usize, (S, O), F>(
            step,
            state_before::<S, A, O, F>(step, gates, s0, zero, new_starts, (n - 1) as nat),
            gates,
            (n - 1) as usize,
        ).0
    }
}

/// The state that time step `n` works on.
pub open spec fn state_before<S, A, O, F: Fn(&S, &A, &usize) -> (S, O)>(
    step: F,
    gates: A,
    s0: S,
    zero: S,
    new_starts: Seq<bool>,
    n: nat,
) -> S
    decreases n, 1nat,
{
    if new_starts[n as int] {
        zero
    } else {
        state_after::<S, A, O, F>(step, gates, s0, zero, new_starts, n)
    }
}

/// The outputs of the first `t` steps.
pub open spec fn outputs<S, A, O, F: Fn(&S, &A, &usize) -> (S, O)>(
    step: F,
    gates: A,
    s0: S,
    zero: S,
    new_starts: Seq<bool>,
    t: nat,
) -> Seq<O> {
    Seq::new(
        t,
        |i: int|
            value3::<S, A, usize, (S, O), F>(
                step,
                state_before::<S, A, O, F>(step, gates, s0, zero, new_starts, i as nat),
                gates,
                i as usize,
            ).1,
    )
}

/// The smaller of two numbers of steps.
pub open spec fn counted(length: usize, t: usize) -> nat {
    if length < t {
        length as nat
    } else {
        t as nat
    }
}

/// Runs a recurrence over `t` time steps. `step` makes the next state and the output of a state,
/// the gates and the number of the step; a step that starts a new sequence works on `zero`. Gives
/// the state behind the last step before `length`, and the outputs of all steps.
pub fn inner_loop<S, A, O, F: Fn(&S, &A, &usize) -> (S, O), C: Fn(&S) -> S>(
    s0: S,
    zero: &S,
    gates: &A,
    t: usize,
    length: usize,
    new_starts: &[bool],
    step: &F,
    copy: &C,
) -> (r: (S, Vec<O>))
    requires
        t <= new_starts@.len(),
        computes3::<S, A, usize, (S, O), F>(*step),
        copies::<S, C>(*copy),
    ensures
        r.0 == state_after::<S, A, O, F>(
            *step,
            *gates,
            s0,
            *zero,
            new_starts@,
            counted(length, t),
        ),
        r.1@ == outputs::<S, A, O, F>(*step, *gates, s0, *zero, new_starts@, t as nat),
{
    let ghost start = s0;
    let mut kept: S = apply1(copy, &s0);
    let mut state: S = s0;
    let mut outs: Vec<O> = Vec::with_capacity(t);
    let mut tt: usize = 0;
    while tt < t
        invariant
            tt <= t <= new_starts@.len(),
            computes3::<S, A, usize, (S, O), F>(*step),
            copies::<S, C>(*copy),
            outs@ == outputs::<S, A, O, F>(*step, *gates, start, *zero, new_starts@, tt as nat),
            state == state_after::<S, A, O, F>(
                *step,
                *gates,
                start,
                *zero,
                new_starts@,
                tt as nat,
            ),
            kept == state_after::<S, A, O, F>(
                *step,
                *gates,
                start,
                *zero,
                new_starts@,
                counted(length, tt),
            ),
        decreases t - tt,
    {
        if new_starts[tt] {
            state = apply1(copy, zero);
        }
        let (next, out): (S, O) = apply3(step, &state, gates, &tt);
        if tt < length {
            kept = apply1(copy, &next);
        }
        state = next;
        outs.push(out);
        tt = tt + 1;
        proof {
            assert(outs@ =~= outputs::<S, A, O, F>(
                *step,
                *gates,
                start,
                *zero,
                new_starts@,
                tt as nat,
            ));
        }
    }
    (kept, outs)
}

/// Whether a step makes the same of two gates at the steps from `start` to `n`.
pub open spec fn gates_agree<S, A, O, F: Fn(&S, &A, &usize) -> (S, O)>(
    step: F,
    g1: A,
    g2: A,
    start: nat,
    n: nat,
) -> bool {
    forall|s: S, t: usize|
        start <= t < n ==> #[trigger] value3::<S, A, usize, (S, O), F>(step, s, g1, t)
            == #[trigger] value3::<S, A, usize, (S, O), F>(step, s, g2, t)
}

/// What precedes a new sequence does not matter: behind a step that starts one, the state and the
/// outputs are the same whatever the first state was, and whatever the gates were before.
pub proof fn new_sequence_forgets<S, A, O, F: Fn(&S, &A, &usize) -> (S, O)>(
    step: F,
    g1: A,
    g2: A,
    s1: S,
    s2: S,
    zero: S,
    new_starts: Seq<bool>,
    start: nat,
    n: nat,
)
    requires
        start < n <= new_starts.len(),
        n <= usize::MAX,
        new_starts[start as int],
        gates_agree::<S, A, O, F>(step, g1, g2, start, n),
    ensures
        state_after::<S, A, O, F>(step, g1, s1, zero, new_starts, n) == state_after::<S, A, O, F>(
            step,
            g2,
            s2,
            zero,
            new_starts,
            n,
        ),
        outputs::<S, A, O, F>(step, g1, s1, zero, new_starts, n).skip(start as int) == outputs::<
            S,
            A,
            O,
            F,
        >(step, g2, s2, zero, new_starts, n).skip(start as int),
    decreases n,
{
    let m = (n - 1) as nat;
    let o1 = outputs::<S, A, O, F>(step, g1, s1, zero, new_starts, n);
    let o2 = outputs::<S, A, O, F>(step, g2, s2, zero, new_starts, n);
    if n > start + 1 {
        new_sequence_forgets::<S, A, O, F>(step, g1, g2, s1, s2, zero, new_starts, start, m);
        let p1 = outputs::<S, A, O, F>(step, g1, s1, zero, new_starts, m);
        let p2 = outputs::<S, A, O, F>(step, g2, s2, zero, new_starts, m);
        assert forall|i: int| start <= i < m implies #[trigger] o1[i] == o2[i] by {
            assert(o1[i] == p1[i] && o2[i] == p2[i]);
            assert(p1.skip(start as int)[i - start] == p2.skip(start as int)[i - start]);
        }
    }
    let before = state_before::<S, A, O, F>(step, g1, s1, zero, new_starts, m);
    assert(before == state_before::<S, A, O, F>(step, g2, s2, zero, new_starts, m));
    assert(value3::<S, A, usize, (S, O), F>(step, before, g1, m as usize) == value3::<
        S,
        A,
        usize,
        (S, O),
        F,
    >(step, before, g2, m as usize));
    assert(o1[m as int] == o2[m as int]);
    assert(o1.skip(start as int) =~= o2.skip(start as int));
}

/// The value behind `n` steps of a relaxation towards `target`.
pub open spec fn relaxed<U, H, F: Fn(&U, &H) -> U>(step: F, target: H, u0: U, n: nat) -> U
    decreases n,
{
    if n == 0 {
        u0
    } else {
        value2::<U, H, U, F>(step, relaxed::<U, H, F>(step, target, u0, (n - 1) as nat), target)
    }
}

/// Relaxes a value in `n_iter` steps.
pub fn relax<U, H, F: Fn(&U, &H) -> U>(step: &F, target: &H, u0: U, n_iter: usize) -> (u: U)
    requires
        computes2::<U, H, U, F>(*step),
    ensures
        u == relaxed::<U, H, F>(*step, *target, u0, n_iter as nat),
{
    let ghost start = u0;
    let mut u: U = u0;
    let mut i: usize = 0;
    while i < n_iter
        invariant
            i <= n_iter,
            computes2::<U, H, U, F>(*step),
            u == relaxed::<U, H, F>(*step, *target, start, i as nat),
        decreases n_iter - i,
    {
        u = apply2(step, &u, target);
        i = i + 1;
    }
    u
}

// ---------------------------------------------------------------------------
// Spiking layers
// ---------------------------------------------------------------------------
/// The membrane behind time step `n - 1` of a leaky-integrate-and-fire scan.
pub open spec fn membrane<V, C, H, O, F: Fn(&V, &C, &H) -> (V, O)>(
    lif_step: F,
    params: H,
    v0: V,
    currents: Seq<C>,
    n: nat,
) -> V
    decreases n,
{
    if n == 0 {
        v0
    } else {
        value3::<V, C, H, (V, O), F>(
            lif_step,
            membrane::<V, C, H, O, F>(lif_step, params, v0, currents, (n - 1) as nat),
            currents[n - 1],
            params,
        ).0
    }
}

/// The spikes of a leaky-integrate-and-fire scan.
pub open spec fn spikes_of<V, C, H, O, F: Fn(&V, &C, &H) -> (V, O)>(
    lif_step: F,
    params: H,
    v0: V,
    currents: Seq<C>,
) -> Seq<O> {
    Seq::new(
        currents.len(),
        |i: int|
            value3::<V, C, H, (V, O), F>(
                lif_step,
                membrane::<V, C, H, O, F>(lif_step, params, v0, currents, i as nat),
                currents[i],
                params,
            ).1,
    )
}

/// Runs the leaky-integrate-and-fire dynamics over the time axis: `lif_step` makes the next
/// membrane and the spikes of a membrane, a current and the parameters of the layer.
pub fn run_lif<V, C, H, O, F: Fn(&V, &C, &H) -> (V, O)>(
    lif_step: &F,
    params: &H,
    v0: V,
    currents: &[C],
) -> (spikes: Vec<O>)
    requires
        computes3::<V, C, H, (V, O), F>(*lif_step),
    ensures
        spikes@ == spikes_of::<V, C, H, O, F>(*lif_step, *params, v0, currents@),
{
    let ghost start = v0;
    let mut v: V = v0;
    let mut spikes: Vec<O> = Vec::with_capacity(currents.len());
    let mut i: usize = 0;
    while i < currents.len()
        invariant
            i <= currents@.len(),
            computes3::<V, C, H, (V, O), F>(*lif_step),
            spikes@ == spikes_of::<V, C, H, O, F>(*lif_step, *params, start, currents@).take(
                i as int,
            ),
            v == membrane::<V, C, H, O, F>(*lif_step, *params, start, currents@, i as nat),
        decreases currents@.len() - i,
    {
        let ghost all = spikes_of::<V, C, H, O, F>(*lif_step, *params, start, currents@);
        let (next, spike): (V, O) = apply3(lif_step, &v, &currents[i], params);
        v = next;
        spikes.push(spike);
        proof {
            assert(spikes@ =~= all.take(i + 1));
        }
        i = i + 1;
    }
    proof {
        let all = spikes_of::<V, C, H, O, F>(*lif_step, *params, start, currents@);
        assert(all.take(i as int) =~= all);
    }
    spikes
}

/// The products of all time steps with a weight.
pub open spec fn products<X, P, Y, F: Fn(&X, &P) -> Y>(product: F, x: Seq<X>, weight: P) -> Seq<
    Y,
> {
    Seq::new(x.len(), |i: int| value2::<X, P, Y, F>(product, x[i], weight))
}

/// Multiplies each time step with a weight.
pub fn matmul_3d<X, P, Y, F: Fn(&X, &P) -> Y>(product: &F, x: &[X], weight: &P) -> (y: Vec<Y>)
    requires
        computes2::<X, P, Y, F>(*product),
    ensures
        y@ == products::<X, P, Y, F>(*product, x@, *weight),
{
    let mut y: Vec<Y> = Vec::with_capacity(x.len());
    let mut i: usize = 0;
    while i < x.len()
        invariant
            i <= x@.len(),
            computes2::<X, P, Y, F>(*product),
            y@ == products::<X, P, Y, F>(*product, x@, *weight).take(i as int),
        decreases x@.len() - i,
    {
        y.push(apply2(product, &x[i], weight));
        proof {
            assert(y@ =~= products::<X, P, Y, F>(*product, x@, *weight).take(i + 1));
        }
        i = i + 1;
    }
    proof {
        let all = products::<X, P, Y, F>(*product, x@, *weight);
        assert(all.take(i as int) =~= all);
    }
    y
}

// ---------------------------------------------------------------------------
// Token shift
// ---------------------------------------------------------------------------
/// Element `j` of the shifted rows: each row is the one before it, the first is the carried row,
/// and a row that starts a new sequence is zero.
pub open spec fn shifted<T>(
    carried: Seq<T>,
    x: Seq<T>,
    new_starts: Seq<bool>,
    c: int,
    zero: T,
    j: int,
) -> T {
    if new_starts[j / c] {
        zero
    } else if j < c {
        carried[j]
    } else {
        x[j - c]
    }
}

/// Shifts the rows of `x`, `c` elements each, by one: each row is the one before it, the first is
/// the carried row, and a row that starts a new sequence is zero.
pub fn token_shift<T: Copy>(
    carried: &[T],
    x: &[T],
    new_starts: &[bool],
    c: usize,
    zero: T,
) -> (out: Vec<T>)
    requires
        0 < c,
        carried@.len() == c,
        x@.len() == new_starts@.len() * c,
    ensures
        out@.len() == x@.len(),
        forall|j: int|
            0 <= j < out@.len() ==> #[trigger] out@[j] == shifted(
                carried@,
                x@,
                new_starts@,
                c as int,
                zero,
                j,
            ),
{
    let n: usize = x.len();
    let mut out: Vec<T> = Vec::with_capacity(n);
    let mut j: usize = 0;
    while j < n
        invariant
            0 < c,
            n == x@.len() == new_starts@.len() * c,
            carried@.len() == c,
            j <= n,
            out@.len() == j,
            forall|k: int|
                0 <= k < j ==> #[trigger] out@[k] == shifted(
                    carried@,
                    x@,
                    new_starts@,
                    c as int,
                    zero,
                    k,
                ),
        decreases n - j,
    {
        proof {
            assert(j as int / c as int <= new_starts@.len() - 1) by (nonlinear_arith)
                requires
                    0 <= j < new_starts@.len() * c,
                    0 < c,
            ;
        }
        if new_starts[j / c] {
            out.push(zero);
        } else if j < c {
            out.push(carried[j]);
        } else {
            out.push(x[j - c]);
        }
        j = j + 1;
    }
    out
}

// ---------------------------------------------------------------------------
// Shapes of recurrent mixers
// ---------------------------------------------------------------------------
/// The shape of a recurrent mixer.
#[derive(Clone, Copy, Debug, PartialEq, Eq, Structural)]
pub struct MixerShape {
    /// Time steps.
    pub t: usize,
    /// Channels.
    pub c: usize,
    /// Heads.
    pub h: usize,
    /// Channels per head.
    pub s: usize,
    /// Time steps that count for the carried state.
    pub length: usize,
}

impl MixerShape {
    /// Whether the heads make up the channels, and the last counting step is one of the steps.
    pub open spec fn valid(self) -> bool {
        &&& self.c == self.h * self.s
        &&& 0 < self.length <= self.t
    }

    /// The shape, if the heads make up the channels and the last counting step is one of the
    /// steps.
    pub fn new(t: usize, c: usize, h: usize, s: usize, length: usize) -> (shape: Option<MixerShape>)
        ensures
            match shape {
                Some(m) => m == (MixerShape { t, c, h, s, length }) && m.valid(),
                None => !(MixerShape { t, c, h, s, length }).valid(),
            },
    {
        match h.checked_mul(s) {
            Some(channels) => {
                if channels == c && 0 < length && length <= t {
                    Some(MixerShape { t, c, h, s, length })
                } else {
                    None
                }
            },
            None => None,
        }
    }

    /// The row that is carried to the next call: that of the last counting step.
    pub fn carried_row(self) -> (row: usize)
        requires
            self.valid(),
        ensures
            row == self.length - 1,
            row < self.t,
    {
        self.length - 1
    }
}

/// A state of `s` rows of `c` channels holds exactly the `h` square matrices of a mixer.
pub proof fn state_holds_head_matrices(m: MixerShape)
    requires
        m.valid(),
    ensures
        m.s * m.c == m.h * (m.s * m.s),
{
    assert(m.s * (m.h * m.s) == m.h * (m.s * m.s)) by (nonlinear_arith);
}

/// How often each key and value head is used.
pub fn kv_repeats(h: usize, num_kv: usize) -> (n: usize)
    requires
        0 < num_kv,
    ensures
        n == h / num_kv,
{
    h / num_kv
}

/// Element `p` of heads, `width` elements each, of which each is repeated `n` times in a row.
pub open spec fn repeated<T>(heads: Seq<T>, width: int, n: int, p: int) -> T {
    heads[p / width / n * width + p % width]
}

/// Repeats each head, `width` elements, `n` times in a row.
pub fn repeat_axis1<T: Copy>(heads: &[T], width: usize, n: usize) -> (out: Vec<T>)
    requires
        0 < width,
        heads@.len() as int % width as int == 0,
        heads@.len() * n <= usize::MAX,
    ensures
        out@.len() == heads@.len() * n,
        forall|p: int|
            0 <= p < out@.len() ==> #[trigger] out@[p] == repeated(
                heads@,
                width as int,
                n as int,
                p,
            ),
{
    let len: usize = heads.len();
    let total: usize = len * n;
    let mut out: Vec<T> = Vec::with_capacity(total);
    let mut p: usize = 0;
    while p < total
        invariant
            0 < width,
            heads@.len() as int % width as int == 0,
            len == heads@.len(),
            total == len * n,
            p <= total,
            out@.len() == p,
            forall|q: int|
                0 <= q < p ==> #[trigger] out@[q] == repeated(heads@, width as int, n as int, q),
        decreases total - p,
    {
        proof {
            repeated_within(len as int, width as int, n as int, p as int);
        }
        let from: usize = p / width / n * width + p % width;
        out.push(heads[from]);
        p = p + 1;
    }
    out
}

/// The element that is repeated is one of the heads.
proof fn repeated_within(len: int, width: int, n: int, p: int)
    requires
        0 < width,
        0 <= len,
        len % width == 0,
        0 <= p < len * n,
    ensures
        0 < n,
        0 <= p / width / n * width,
        p / width / n * width + p % width < len,
{
    assert(0 < n) by (nonlinear_arith)
        requires
            0 < len * n,
            0 <= len,
    ;
    let count = len / width;
    lemma_fundamental_div_mod(len, width);
    let g = p / width;
    assert(g < count * n) by (nonlinear_arith)
        requires
            g == p / width,
            0 <= p < len * n,
            len == width * count,
            0 < width,
            0 < n,
    ;
    let k = g / n;
    assert(0 <= g) by (nonlinear_arith)
        requires
            g == p / width,
            0 <= p,
            0 < width,
    ;
    assert(0 <= k < count) by (nonlinear_arith)
        requires
            k == g / n,
            0 <= g < count * n,
            0 < n,
    ;
    assert(0 <= k * width && k * width + width <= len) by (nonlinear_arith)
        requires
            0 <= k,
            k + 1 <= count,
            len == width * count,
            0 < width,
    ;
}

/// Heads are repeated within their rows: head `j` of row `i` is a copy of head `j / n` of row `i`.
pub proof fn heads_stay_in_their_rows<T>(
    heads: Seq<T>,
    num_kv: int,
    width: int,
    n: int,
    i: int,
    j: int,
    e: int,
)
    requires
        0 < width,
        0 < n,
        0 <= num_kv,
        0 <= i,
        0 <= j < num_kv * n,
        0 <= e < width,
    ensures
        repeated(heads, width, n, (i * (num_kv * n) + j) * width + e) == heads[(i * num_kv + j / n)
            * width + e],
        0 <= j / n < num_kv,
{
    let g = i * (num_kv * n) + j;
    let p = g * width + e;
    assert(p / width == g && p % width == e) by (nonlinear_arith)
        requires
            p == g * width + e,
            0 <= e < width,
            0 <= g,
    ;
    let k = j / n;
    lemma_fundamental_div_mod(j, n);
    assert(0 <= k < num_kv) by (nonlinear_arith)
        requires
            k == j / n,
            0 <= j < num_kv * n,
            0 < n,
    ;
    let r = j % n;
    assert(g == n * (i * num_kv + k) + r) by (nonlinear_arith)
        requires
            g == i * (num_kv * n) + j,
            j == n * k + r,
    ;
    lemma_fundamental_div_mod_converse(g, n, i * num_kv + k, r);
}

/// How many channels each of `num_groups` groups has.
pub fn group_channels(c: usize, num_groups: usize) -> (inner: Option<usize>)
    ensures
        match inner {
            Some(n) => num_groups > 0 && n * num_groups == c,
            None => num_groups == 0 || c as int % num_groups as int != 0,
        },
{
    if num_groups == 0 || c % num_groups != 0 {
        return None;
    }
    proof {
        lemma_fundamental_div_mod(c as int, num_groups as int);
        assert(num_groups * (c as int / num_groups as int) == (c as int / num_groups as int)
            * num_groups) by (nonlinear_arith);
    }
    Some(c / num_groups)
}

} // verus!
