//! What holds of the kernels: threads draw from states of their own, one word after the other.

use vstd::arithmetic::div_mod::lemma_fundamental_div_mod_converse;
use vstd::prelude::*;

use crate::kernels::{noise_element, poisson_seed, poisson_spike, poisson_state, state_before};
use crate::noise::recovered;
use crate::ops::value;
use crate::prng::{
    first_state, mixed, round, seed_of_thread, unit_numerator, wrapping_sum, xorshift32,
};

verus! {

/// Different threads have different seeds.
pub proof fn thread_seeds_differ(x: u32, y: u32)
    requires
        x != y,
    ensures
        seed_of_thread(x) != seed_of_thread(y),
{
    let m: int = 0x1_0000_0000;
    let k: int = 1000000007;
    // The inverse of the multiplier modulo 2^32.
    let inv: int = 2068349879;
    assert(k * inv % m == 1) by (nonlinear_arith)
        requires
            k == 1000000007,
            inv == 2068349879,
            m == 0x1_0000_0000,
    ;
    recovered(x as int, k, inv, m);
    recovered(y as int, k, inv, m);
    assert(x * k == k * x && y * k == k * y) by (nonlinear_arith);
}

/// Adding a word to different words gives different words.
proof fn sums_differ(a: u32, b: u32, c: u32)
    requires
        a != b,
    ensures
        wrapping_sum(a, c) != wrapping_sum(b, c),
{
}

/// Threads start apart: with the same seeds, every word of the first state of a thread differs
/// from that of every other thread, and so does the generator of every element.
pub proof fn threads_start_apart(x: u32, y: u32, seeds: Seq<u32>, i: int)
    requires
        x != y,
        0 <= i < 4,
    ensures
        first_state(x, seeds).len() == 4,
        first_state(x, seeds)[i] != first_state(y, seeds)[i],
        poisson_seed(x, seeds) != poisson_seed(y, seeds),
{
    thread_seeds_differ(x, y);
    let (a, b) = (seed_of_thread(x), seed_of_thread(y));
    sums_differ(a, b, seeds[i]);
    let c = seeds[0] ^ seeds[1] ^ seeds[2] ^ seeds[3];
    sums_differ(a, b, c);
    sums_differ(wrapping_sum(a, c), wrapping_sum(b, c), 0x9E37_79B9);
}

/// Every seed counts: different seeds give a thread different words.
pub proof fn seeds_count(x: u32, one: Seq<u32>, other: Seq<u32>, i: int)
    requires
        0 <= i < 4,
        one[i] != other[i],
    ensures
        first_state(x, one)[i] != first_state(x, other)[i],
{
    sums_differ(one[i], other[i], seed_of_thread(x));
}

/// No word of a thread is skipped or drawn twice: where `states` are the states of a thread round
/// by round, element `2 * i` and element `2 * i + 1` of the thread's share of the noise are the
/// two numbers made of the words of the rounds `2 * i + 1` and `2 * i + 2`.
pub proof fn words_are_drawn_in_order<T, F: Fn((u32, u32)) -> (T, T)>(
    normal: F,
    seeds: Seq<u32>,
    thread: u32,
    states: Seq<Seq<u32>>,
    i: int,
)
    requires
        0 <= i < 64,
        states.len() > 2 * i + 2,
        states[0] == first_state(thread, seeds),
        forall|k: int| 0 < k < states.len() ==> #[trigger] states[k] == round(states[k - 1]),
    ensures
        (
            noise_element::<T, F>(normal, seeds, thread * 128 + 2 * i),
            noise_element::<T, F>(normal, seeds, thread * 128 + 2 * i + 1),
        ) == value::<(u32, u32), (T, T), F>(
            normal,
            (
                unit_numerator(mixed(states[2 * i + 1])),
                unit_numerator(mixed(states[2 * i + 2])),
            ),
        ),
{
    rounds_before(seeds, thread, states, i as nat);
    let j = thread * 128 + 2 * i;
    lemma_fundamental_div_mod_converse(j, 128, thread as int, 2 * i);
    lemma_fundamental_div_mod_converse(j + 1, 128, thread as int, 2 * i + 1);
    assert(states[2 * i + 1] == round(states[2 * i]));
    assert(states[2 * i + 2] == round(states[2 * i + 1]));
}

proof fn rounds_before(seeds: Seq<u32>, thread: u32, states: Seq<Seq<u32>>, i: nat)
    requires
        states.len() > 2 * i,
        states[0] == first_state(thread, seeds),
        forall|k: int| 0 < k < states.len() ==> #[trigger] states[k] == round(states[k - 1]),
    ensures
        state_before(thread, seeds, i) == states[2 * i as int],
    decreases i,
{
    if i > 0 {
        rounds_before(seeds, thread, states, (i - 1) as nat);
        assert(states[2 * i - 1] == round(states[2 * i - 2]));
        assert(states[2 * i as int] == round(states[2 * i - 1]));
    }
}

/// Every time step draws a word of its own: where `states` are the states of an element's
/// generator step by step, from its first, the spike at time step `tt` goes by the word of the
/// step behind it.
pub proof fn time_steps_draw_in_order<T, F: Fn((u32, T)) -> T>(
    fire: F,
    seeds: Seq<u32>,
    idx: u32,
    states: Seq<u32>,
    tt: int,
    p: T,
)
    requires
        0 <= tt,
        states.len() > tt + 1,
        states[0] == poisson_seed(idx, seeds),
        forall|k: int| 0 < k < states.len() ==> #[trigger] states[k] == xorshift32(states[k - 1]),
    ensures
        poisson_spike::<T, F>(fire, seeds, idx as int, tt, p) == value::<(u32, T), T, F>(
            fire,
            (unit_numerator(states[tt + 1]), p),
        ),
{
    steps_behind(seeds, idx, states, (tt + 1) as nat);
}

proof fn steps_behind(seeds: Seq<u32>, idx: u32, states: Seq<u32>, n: nat)
    requires
        states.len() > n,
        states[0] == poisson_seed(idx, seeds),
        forall|k: int| 0 < k < states.len() ==> #[trigger] states[k] == xorshift32(states[k - 1]),
    ensures
        poisson_state(idx, seeds, n) == states[n as int],
    decreases n,
{
    if n > 0 {
        steps_behind(seeds, idx, states, (n - 1) as nat);
        assert(states[n as int] == xorshift32(states[n - 1]));
    }
}

} // verus!
