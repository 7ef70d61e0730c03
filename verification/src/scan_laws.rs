//! What holds of recurrences over time: they can be cut in two at any step, and the part behind
//! the cut goes on from the state at the cut.

use vstd::arithmetic::div_mod::{
    lemma_fundamental_div_mod, lemma_fundamental_div_mod_converse,
};
use vstd::prelude::*;

use crate::kernels;
use crate::ops::{value, value2, value3};
use crate::recurrent::{
    membrane, outputs, relaxed, shifted, spikes_of, state_after, state_before,
};

verus! {

/// One step is one step: the spike of a single current, and the membrane behind it, are those that
/// the step makes of the first membrane, the current and the parameters.
pub proof fn one_current<V, C, H, O, F: Fn(&V, &C, &H) -> (V, O)>(
    lif_step: F,
    params: H,
    v0: V,
    current: C,
)
    ensures
        (
            membrane::<V, C, H, O, F>(lif_step, params, v0, seq![current], 1),
            spikes_of::<V, C, H, O, F>(lif_step, params, v0, seq![current])[0],
        ) == value3::<V, C, H, (V, O), F>(lif_step, v0, current, params),
        spikes_of::<V, C, H, O, F>(lif_step, params, v0, seq![current]).len() == 1,
{
    reveal_with_fuel(membrane, 2);
    assert(seq![current][0] == current);
}

/// A spiking layer can be stopped and taken up again: the spikes of two stretches of time are
/// those of the first, then those of the second from the membrane behind the first.
pub proof fn layers_go_on<V, C, H, O, F: Fn(&V, &C, &H) -> (V, O)>(
    lif_step: F,
    params: H,
    v0: V,
    first: Seq<C>,
    second: Seq<C>,
)
    ensures
        ({
            let v1 = membrane::<V, C, H, O, F>(lif_step, params, v0, first, first.len());
            &&& spikes_of::<V, C, H, O, F>(lif_step, params, v0, first + second) == spikes_of::<
                V,
                C,
                H,
                O,
                F,
            >(lif_step, params, v0, first) + spikes_of::<V, C, H, O, F>(
                lif_step,
                params,
                v1,
                second,
            )
            &&& membrane::<V, C, H, O, F>(
                lif_step,
                params,
                v0,
                first + second,
                first.len() + second.len(),
            ) == membrane::<V, C, H, O, F>(lif_step, params, v1, second, second.len())
        }),
{
    let v1 = membrane::<V, C, H, O, F>(lif_step, params, v0, first, first.len());
    let all = spikes_of::<V, C, H, O, F>(lif_step, params, v0, first + second);
    let a = spikes_of::<V, C, H, O, F>(lif_step, params, v0, first);
    let b = spikes_of::<V, C, H, O, F>(lif_step, params, v1, second);
    assert forall|i: int| 0 <= i < all.len() implies #[trigger] all[i] == (a + b)[i] by {
        if i < first.len() {
            membrane_of_prefix::<V, C, H, O, F>(lif_step, params, v0, first, second, i as nat);
        } else {
            membrane_goes_on::<V, C, H, O, F>(
                lif_step,
                params,
                v0,
                first,
                second,
                (i - first.len()) as nat,
            );
        }
    }
    assert(all =~= a + b);
    membrane_goes_on::<V, C, H, O, F>(lif_step, params, v0, first, second, second.len());
}

proof fn membrane_of_prefix<V, C, H, O, F: Fn(&V, &C, &H) -> (V, O)>(
    lif_step: F,
    params: H,
    v0: V,
    first: Seq<C>,
    second: Seq<C>,
    n: nat,
)
    requires
        n <= first.len(),
    ensures
        membrane::<V, C, H, O, F>(lif_step, params, v0, first + second, n) == membrane::<
            V,
            C,
            H,
            O,
            F,
        >(lif_step, params, v0, first, n),
    decreases n,
{
    if n > 0 {
        membrane_of_prefix::<V, C, H, O, F>(lif_step, params, v0, first, second, (n - 1) as nat);
    }
}

proof fn membrane_goes_on<V, C, H, O, F: Fn(&V, &C, &H) -> (V, O)>(
    lif_step: F,
    params: H,
    v0: V,
    first: Seq<C>,
    second: Seq<C>,
    n: nat,
)
    requires
        n <= second.len(),
    ensures
        membrane::<V, C, H, O, F>(lif_step, params, v0, first + second, first.len() + n)
            == membrane::<V, C, H, O, F>(
            lif_step,
            params,
            membrane::<V, C, H, O, F>(lif_step, params, v0, first, first.len()),
            second,
            n,
        ),
    decreases n,
{
    if n == 0 {
        membrane_of_prefix::<V, C, H, O, F>(lif_step, params, v0, first, second, first.len());
    } else {
        membrane_goes_on::<V, C, H, O, F>(
            lif_step,
            params,
            v0,
            first,
            second,
            (n - 1) as nat,
        );
        assert((first + second)[first.len() + n - 1] == second[n - 1]);
    }
}

/// The fused scan is the spiking layer of each neuron: where both steps make the same of a
/// membrane and a current, a neuron of the fused scan spikes as a layer does that gets the
/// currents of that neuron alone.
pub proof fn fused_neurons_are_layers<T, G: Fn((T, T)) -> (T, T), H, F: Fn(&T, &T, &H) -> (T, T)>(
    fused: G,
    lif_step: F,
    params: H,
    cur: Seq<T>,
    v0: Seq<T>,
    frame: int,
    base: int,
    steps: nat,
    tt: nat,
)
    requires
        tt < steps,
        forall|v: T, c: T|
            (#[trigger] value::<(T, T), (T, T), G>(fused, (v, c))) == ({
                let (next, spike) = value3::<T, T, H, (T, T), F>(lif_step, v, c, params);
                (spike, next)
            }),
    ensures
        kernels::lif_spike::<T, G>(fused, cur, v0, frame, base, tt) == spikes_of::<T, T, H, T, F>(
            lif_step,
            params,
            v0[base],
            Seq::new(steps, |t: int| cur[t * frame + base]),
        )[tt as int],
{
    fused_membrane::<T, G, H, F>(fused, lif_step, params, cur, v0, frame, base, steps, tt);
}

proof fn fused_membrane<T, G: Fn((T, T)) -> (T, T), H, F: Fn(&T, &T, &H) -> (T, T)>(
    fused: G,
    lif_step: F,
    params: H,
    cur: Seq<T>,
    v0: Seq<T>,
    frame: int,
    base: int,
    steps: nat,
    n: nat,
)
    requires
        n <= steps,
        forall|v: T, c: T|
            (#[trigger] value::<(T, T), (T, T), G>(fused, (v, c))) == ({
                let (next, spike) = value3::<T, T, H, (T, T), F>(lif_step, v, c, params);
                (spike, next)
            }),
    ensures
        kernels::membrane::<T, G>(fused, cur, v0, frame, base, n) == membrane::<T, T, H, T, F>(
            lif_step,
            params,
            v0[base],
            Seq::new(steps, |t: int| cur[t * frame + base]),
            n,
        ),
    decreases n,
{
    if n > 0 {
        fused_membrane::<T, G, H, F>(
            fused,
            lif_step,
            params,
            cur,
            v0,
            frame,
            base,
            steps,
            (n - 1) as nat,
        );
    }
}

/// One step of a recurrence works on the first state, or on the zero state where it starts a new
/// sequence, and gives the next state and the only output.
pub proof fn one_step<S, A, O, F: Fn(&S, &A, &usize) -> (S, O)>(
    step: F,
    gates: A,
    s0: S,
    zero: S,
    new_starts: Seq<bool>,
)
    ensures
        (
            state_after::<S, A, O, F>(step, gates, s0, zero, new_starts, 1),
            outputs::<S, A, O, F>(step, gates, s0, zero, new_starts, 1)[0],
        ) == value3::<S, A, usize, (S, O), F>(
            step,
            if new_starts[0] {
                zero
            } else {
                s0
            },
            gates,
            0,
        ),
        outputs::<S, A, O, F>(step, gates, s0, zero, new_starts, 1).len() == 1,
{
    reveal_with_fuel(state_after, 2);
    reveal_with_fuel(state_before, 2);
}

/// Steps that each follow from the one before are the steps of the scan.
pub proof fn steps_are_the_scan<S, A, O, F: Fn(&S, &A, &usize) -> (S, O)>(
    step: F,
    gates: A,
    zero: S,
    new_starts: Seq<bool>,
    outs: Seq<O>,
    states: Seq<S>,
    n: nat,
)
    requires
        n <= outs.len() <= usize::MAX,
        states.len() == outs.len() + 1,
        forall|t: int|
            0 <= t < outs.len() ==> (states[t + 1], #[trigger] outs[t]) == value3::<
                S,
                A,
                usize,
                (S, O),
                F,
            >(
                step,
                if new_starts[t] {
                    zero
                } else {
                    states[t]
                },
                gates,
                t as usize,
            ),
    ensures
        state_after::<S, A, O, F>(step, gates, states[0], zero, new_starts, n) == states[n as int],
        outputs::<S, A, O, F>(step, gates, states[0], zero, new_starts, n) == outs.take(n as int),
    decreases n,
{
    if n > 0 {
        let m = (n - 1) as nat;
        steps_are_the_scan::<S, A, O, F>(step, gates, zero, new_starts, outs, states, m);
        let all = outputs::<S, A, O, F>(step, gates, states[0], zero, new_starts, n);
        let some = outputs::<S, A, O, F>(step, gates, states[0], zero, new_starts, m);
        assert((states[m as int + 1], outs[m as int]) == value3::<S, A, usize, (S, O), F>(
            step,
            if new_starts[m as int] {
                zero
            } else {
                states[m as int]
            },
            gates,
            m as usize,
        ));
        assert forall|i: int| 0 <= i < n implies #[trigger] all[i] == outs[i] by {
            if i < m {
                assert(all[i] == some[i]);
                assert(some[i] == outs.take(m as int)[i]);
            }
        }
        assert(all =~= outs.take(n as int));
    } else {
        assert(outputs::<S, A, O, F>(step, gates, states[0], zero, new_starts, n) =~= outs.take(0));
    }
}

/// A recurrence can be stopped and taken up again: where `later` holds the gates of the steps from
/// `cut` on, the state and the outputs behind the cut are those of a recurrence over `later` from
/// the state at the cut.
pub proof fn recurrences_go_on<S, A, O, F: Fn(&S, &A, &usize) -> (S, O)>(
    step: F,
    gates: A,
    later: A,
    s0: S,
    zero: S,
    new_starts: Seq<bool>,
    cut: nat,
    n: nat,
)
    requires
        cut + n <= new_starts.len() <= usize::MAX,
        forall|s: S, t: usize|
            t < n ==> (#[trigger] value3::<S, A, usize, (S, O), F>(step, s, later, t)) == value3::<
                S,
                A,
                usize,
                (S, O),
                F,
            >(step, s, gates, (cut + t) as usize),
    ensures
        ({
            let s1 = state_after::<S, A, O, F>(step, gates, s0, zero, new_starts, cut);
            let rest = new_starts.skip(cut as int);
            &&& state_after::<S, A, O, F>(step, gates, s0, zero, new_starts, cut + n)
                == state_after::<S, A, O, F>(step, later, s1, zero, rest, n)
            &&& outputs::<S, A, O, F>(step, gates, s0, zero, new_starts, cut + n) == outputs::<
                S,
                A,
                O,
                F,
            >(step, gates, s0, zero, new_starts, cut) + outputs::<S, A, O, F>(
                step,
                later,
                s1,
                zero,
                rest,
                n,
            )
        }),
    decreases n,
{
    let s1 = state_after::<S, A, O, F>(step, gates, s0, zero, new_starts, cut);
    let rest = new_starts.skip(cut as int);
    let all = outputs::<S, A, O, F>(step, gates, s0, zero, new_starts, cut + n);
    let head = outputs::<S, A, O, F>(step, gates, s0, zero, new_starts, cut);
    let tail = outputs::<S, A, O, F>(step, later, s1, zero, rest, n);
    if n > 0 {
        let m = (n - 1) as nat;
        recurrences_go_on::<S, A, O, F>(step, gates, later, s0, zero, new_starts, cut, m);
        assert(rest[m as int] == new_starts[(cut + m) as int]);
        let before = state_before::<S, A, O, F>(step, later, s1, zero, rest, m);
        assert(before == state_before::<S, A, O, F>(step, gates, s0, zero, new_starts, cut + m));
        assert(value3::<S, A, usize, (S, O), F>(step, before, later, m as usize) == value3::<
            S,
            A,
            usize,
            (S, O),
            F,
        >(step, before, gates, (cut + m) as usize));
        let some = outputs::<S, A, O, F>(step, gates, s0, zero, new_starts, cut + m);
        let some_tail = outputs::<S, A, O, F>(step, later, s1, zero, rest, m);
        assert forall|i: int| 0 <= i < all.len() implies #[trigger] all[i] == (head + tail)[i] by {
            if i < cut + m {
                assert(all[i] == some[i]);
                assert(some[i] == (head + some_tail)[i]);
            }
        }
    }
    assert(all =~= head + tail);
}

/// A relaxation can be stopped and taken up again, and one step is one step.
pub proof fn relaxations_go_on<U, H, F: Fn(&U, &H) -> U>(step: F, target: H, u0: U, m: nat, n: nat)
    ensures
        relaxed::<U, H, F>(step, target, u0, m + n) == relaxed::<U, H, F>(
            step,
            target,
            relaxed::<U, H, F>(step, target, u0, m),
            n,
        ),
        relaxed::<U, H, F>(step, target, u0, 1) == value2::<U, H, U, F>(step, u0, target),
    decreases n,
{
    reveal_with_fuel(relaxed, 2);
    if n > 0 {
        relaxations_go_on::<U, H, F>(step, target, u0, m, (n - 1) as nat);
    }
}

/// A settled value stays: what a step gives back unchanged, any number of steps gives back.
pub proof fn settled_values_stay<U, H, F: Fn(&U, &H) -> U>(step: F, target: H, u0: U, n: nat)
    requires
        value2::<U, H, U, F>(step, u0, target) == u0,
    ensures
        relaxed::<U, H, F>(step, target, u0, n) == u0,
    decreases n,
{
    if n > 0 {
        settled_values_stay::<U, H, F>(step, target, u0, (n - 1) as nat);
    }
}

/// Shifting two stretches of rows is shifting the first, then the second with the last row of the
/// first carried over.
pub proof fn shifts_go_on<T>(
    carried: Seq<T>,
    first: Seq<T>,
    second: Seq<T>,
    starts: Seq<bool>,
    later: Seq<bool>,
    c: int,
    zero: T,
    j: int,
)
    requires
        0 < c,
        0 < starts.len(),
        first.len() == starts.len() * c,
        second.len() == later.len() * c,
        0 <= j < first.len() + second.len(),
    ensures
        shifted(carried, first + second, starts + later, c, zero, j) == if j < first.len() {
            shifted(carried, first, starts, c, zero, j)
        } else {
            shifted(first.skip(first.len() - c), second, later, c, zero, j - first.len())
        },
{
    let n = starts.len() as int;
    if j < first.len() {
        assert(0 <= j / c < n) by (nonlinear_arith)
            requires
                0 <= j < n * c,
                0 < c,
        ;
    } else {
        let k = j - first.len();
        assert(j / c == n + k / c && 0 <= k / c < later.len()) by {
            lemma_fundamental_div_mod(k, c);
            assert((n + k / c) * c + k % c == n * c + (c * (k / c) + k % c)) by (nonlinear_arith);
            assert(0 <= k % c < c && 0 <= k / c) by (nonlinear_arith)
                requires
                    0 < c,
                    0 <= k,
            ;
            lemma_fundamental_div_mod_converse(
                j,
                c,
                n + k / c,
                k % c,
            );
            let q = k / c;
            assert(q < later.len()) by (nonlinear_arith)
                requires
                    k == c * q + k % c,
                    0 <= k % c,
                    k < later.len() * c,
                    0 < c,
            ;
        }
        assert(n * c >= c) by (nonlinear_arith)
            requires
                n >= 1,
                c > 0,
        ;
    }
}

} // verus!
