//! Seedable noise: a deterministic stream of normal numbers, the seeds of the
//! perturbations of each parameter, and the perturbations themselves.
//!
//! A perturbation belongs to a parameter key and an iteration, an epoch and a
//! thread. Threads `2 * i` and `2 * i + 1` share their stream and differ in sign.

use vstd::arithmetic::div_mod::*;
use vstd::prelude::*;

use crate::ops::{apply, computes, value};
use crate::prng::{next_xorshift64, xorshift64};

verus! {

// ---------------------------------------------------------------------------
// The stream
// ---------------------------------------------------------------------------
/// A deterministic stream of random numbers, a 64-bit xorshift generator.
#[derive(Clone, Debug)]
pub struct DeterministicNoise {
    state: u64,
}

/// A generator state after `n` steps.
pub open spec fn stepped(state: u64, n: nat) -> u64
    decreases n,
{
    if n == 0 {
        state
    } else {
        xorshift64(stepped(state, (n - 1) as nat))
    }
}

/// The first state of a stream: the seed with its lowest bit set.
pub open spec fn seeded(seed: u64) -> u64 {
    seed | 1
}

/// The numerator, over 2^24, of the unit draw that a state gives.
pub open spec fn unit_of(state: u64) -> u32 {
    (state / 0x100_0000_0000) as u32
}

/// The number that `normal` makes of draws `2 * k` and `2 * k + 1` of a stream.
pub open spec fn normal_at<T, F: Fn((u32, u32)) -> T>(normal: F, state: u64, k: nat) -> T {
    value::<(u32, u32), T, F>(
        normal,
        (unit_of(stepped(state, 2 * k + 1)), unit_of(stepped(state, 2 * k + 2))),
    )
}

/// Steps add up.
pub proof fn stepped_adds(state: u64, m: nat, n: nat)
    ensures
        stepped(stepped(state, m), n) == stepped(state, m + n),
    decreases n,
{
    if n > 0 {
        stepped_adds(state, m, (n - 1) as nat);
    }
}

/// A stream never dies: whatever its seed, its state is not zero after any number of draws.
pub proof fn stream_stays_alive(seed: u64, n: nat)
    ensures
        stepped(seeded(seed), n) != 0,
    decreases n,
{
    if n == 0 {
        assert(seed | 1 != 0) by (bit_vector);
    } else {
        stream_stays_alive(seed, (n - 1) as nat);
        crate::prng::xorshift64_stays_alive(stepped(seeded(seed), (n - 1) as nat));
    }
}

impl DeterministicNoise {
    /// The state of the stream.
    pub closed spec fn state(&self) -> u64 {
        self.state
    }

    /// A stream with the given seed. A zero seed becomes one, so that the state never collapses
    /// to zero.
    pub fn new(seed: u64) -> (stream: Self)
        ensures
            stream.state() == seeded(seed),
            stream.state() != 0,
    {
        proof {
            assert(seed | 1 != 0) by (bit_vector);
        }
        DeterministicNoise { state: seed | 1 }
    }

    /// The next 64 random bits.
    pub fn next_u64(&mut self) -> (x: u64)
        ensures
            final(self).state() == xorshift64(old(self).state()),
            x == final(self).state(),
    {
        self.state = next_xorshift64(self.state);
        self.state
    }

    /// The numerator, over 2^24, of a unit draw.
    pub fn next_unit(&mut self) -> (numerator: u32)
        ensures
            final(self).state() == xorshift64(old(self).state()),
            numerator == unit_of(final(self).state()),
            numerator < 0x100_0000,
    {
        (self.next_u64() / 0x100_0000_0000) as u32
    }

    /// One number that `normal` makes of two unit draws.
    pub fn standard_normal<T, F: Fn((u32, u32)) -> T>(&mut self, normal: &F) -> (x: T)
        requires
            computes::<(u32, u32), T, F>(*normal),
        ensures
            final(self).state() == stepped(old(self).state(), 2),
            x == normal_at::<T, F>(*normal, old(self).state(), 0),
    {
        proof {
            reveal_with_fuel(stepped, 3);
        }
        let u1: u32 = self.next_unit();
        let u2: u32 = self.next_unit();
        apply(normal, (u1, u2))
    }

    /// The next `n` normal numbers, in the order in which they fill a tensor row by row.
    pub fn normal_values<T: Copy, F: Fn((u32, u32)) -> T>(&mut self, n: usize, normal: &F) -> (out:
        Vec<T>)
        requires
            computes::<(u32, u32), T, F>(*normal),
        ensures
            final(self).state() == stepped(old(self).state(), 2 * n as nat),
            out@.len() == n,
            forall|k: int|
                0 <= k < n ==> #[trigger] out@[k] == normal_at::<T, F>(
                    *normal,
                    old(self).state(),
                    k as nat,
                ),
    {
        let ghost start = self.state();
        let mut out: Vec<T> = Vec::with_capacity(n);
        let mut i: usize = 0;
        while i < n
            invariant
                i <= n,
                out@.len() == i,
                self.state() == stepped(start, 2 * i as nat),
                computes::<(u32, u32), T, F>(*normal),
                forall|k: int|
                    0 <= k < i ==> #[trigger] out@[k] == normal_at::<T, F>(
                        *normal,
                        start,
                        k as nat,
                    ),
            decreases n - i,
        {
            proof {
                stepped_adds(start, 2 * i as nat, 1);
                stepped_adds(start, 2 * i as nat, 2);
            }
            let x: T = self.standard_normal(normal);
            out.push(x);
            i = i + 1;
        }
        out
    }
}

// ---------------------------------------------------------------------------
// Seeds
// ---------------------------------------------------------------------------
/// An iteration: the sweep index and the index of the environment.
#[derive(Clone, Copy, Debug, PartialEq, Eq, Structural)]
pub struct IterInfo {
    /// The sweep index.
    pub epoch: i32,
    /// The index of the environment.
    pub thread_id: i32,
}

/// The product of two words, modulo 2^64.
pub open spec fn wrapping_product(a: u64, b: u64) -> u64 {
    ((a as int * b as int) % 0x1_0000_0000_0000_0000) as u64
}

/// The product of two words, modulo 2^64.
pub fn wrapping_product_of(a: u64, b: u64) -> (p: u64)
    ensures
        p == wrapping_product(a, b),
{
    proof {
        assert(0 <= a as int * b as int <= 0xffff_ffff_ffff_ffff * 0xffff_ffff_ffff_ffff)
            by (nonlinear_arith)
            requires
                0 <= a <= 0xffff_ffff_ffff_ffff,
                0 <= b <= 0xffff_ffff_ffff_ffff,
        ;
    }
    ((a as u128) * (b as u128) % 0x1_0000_0000_0000_0000) as u64
}

/// A signed number as an unsigned word of 64 bits, modulo 2^64.
pub open spec fn sign_extended(n: i32) -> u64 {
    (if n < 0 {
        n + 0x1_0000_0000_0000_0000
    } else {
        n as int
    }) as u64
}

fn sign_extend(n: i32) -> (w: u64)
    ensures
        w == sign_extended(n),
{
    if n < 0 {
        0xffff_ffff_ffff_ffff - ((-1 - n as i64) as u64)
    } else {
        n as u64
    }
}

/// A word rotated left by 17 bits.
pub open spec fn rotated17(h: u64) -> u64 {
    (h << 17) | (h >> 47)
}

/// The seed of the stream of a key, an epoch and a thread.
pub open spec fn seed_of(key: u64, epoch: i32, thread: i32) -> u64 {
    let h1 = wrapping_product(key ^ 0x9E37_79B9_7F4A_7C15, 0xBF58_476D_1CE4_E5B9);
    let h2 = h1 ^ wrapping_product(sign_extended(epoch), 0x94D0_49BB_1331_11EB);
    let h3 = rotated17(h2) ^ sign_extended(thread);
    let h4 = h3 ^ (h3 >> 33);
    let h5 = wrapping_product(h4, 0xBF58_476D_1CE4_E5B9);
    let h6 = h5 ^ (h5 >> 29);
    let h7 = wrapping_product(h6, 0x94D0_49BB_1331_11EB);
    h7 ^ (h7 >> 32)
}

/// Derives a seed from a parameter's key, an epoch and a thread.
pub fn noise_seed(key: u64, true_epoch: i32, true_thread: i32) -> (seed: u64)
    ensures
        seed == seed_of(key, true_epoch, true_thread),
{
    let mut h: u64 = key ^ 0x9E37_79B9_7F4A_7C15;
    h = wrapping_product_of(h, 0xBF58_476D_1CE4_E5B9);
    h = h ^ wrapping_product_of(sign_extend(true_epoch), 0x94D0_49BB_1331_11EB);
    h = ((h << 17) | (h >> 47)) ^ sign_extend(true_thread);
    h = h ^ (h >> 33);
    h = wrapping_product_of(h, 0xBF58_476D_1CE4_E5B9);
    h = h ^ (h >> 29);
    h = wrapping_product_of(h, 0x94D0_49BB_1331_11EB);
    h ^ (h >> 32)
}

/// A number below `m` is found again from its product with an invertible factor.
pub(crate) proof fn recovered(x: int, k: int, inv: int, m: int)
    requires
        0 <= x < m,
        0 < m,
        k * inv % m == 1,
    ensures
        (x * k % m) * inv % m == x,
{
    lemma_mul_mod_noop_left(x * k, inv, m);
    assert(x * k * inv == x * (k * inv)) by (nonlinear_arith);
    lemma_mul_mod_noop_right(x, k * inv, m);
    assert(x * 1 == x);
    lemma_small_mod(x as nat, m as nat);
}

/// Different words have different products with the first multiplier.
proof fn first_products_differ(x: u64, y: u64)
    requires
        x != y,
    ensures
        wrapping_product(x, 0xBF58_476D_1CE4_E5B9) != wrapping_product(y, 0xBF58_476D_1CE4_E5B9),
{
    let m: int = 0x1_0000_0000_0000_0000;
    let k: int = 0xBF58_476D_1CE4_E5B9;
    // The inverse of the multiplier modulo 2^64.
    let inv: int = 0x96DE_1B17_3F11_9089;
    assert(k * inv % m == 1) by (nonlinear_arith)
        requires
            k == 0xBF58_476D_1CE4_E5B9,
            inv == 0x96DE_1B17_3F11_9089,
            m == 0x1_0000_0000_0000_0000,
    ;
    recovered(x as int, k, inv, m);
    recovered(y as int, k, inv, m);
}

/// Different words have different products with the second multiplier.
proof fn second_products_differ(x: u64, y: u64)
    requires
        x != y,
    ensures
        wrapping_product(x, 0x94D0_49BB_1331_11EB) != wrapping_product(y, 0x94D0_49BB_1331_11EB),
{
    let m: int = 0x1_0000_0000_0000_0000;
    let k: int = 0x94D0_49BB_1331_11EB;
    // The inverse of the multiplier modulo 2^64.
    let inv: int = 0x3196_42B2_D24D_8EC3;
    assert(k * inv % m == 1) by (nonlinear_arith)
        requires
            k == 0x94D0_49BB_1331_11EB,
            inv == 0x3196_42B2_D24D_8EC3,
            m == 0x1_0000_0000_0000_0000,
    ;
    recovered(x as int, k, inv, m);
    recovered(y as int, k, inv, m);
}

/// The state of a seed before the thread comes in.
pub open spec fn seed_prefix(key: u64, epoch: i32) -> u64 {
    wrapping_product(key ^ 0x9E37_79B9_7F4A_7C15, 0xBF58_476D_1CE4_E5B9) ^ wrapping_product(
        sign_extended(epoch),
        0x94D0_49BB_1331_11EB,
    )
}

/// Seeds differ where their states behind the thread do.
proof fn mixed_states_differ(key1: u64, key2: u64, epoch1: i32, epoch2: i32, t1: i32, t2: i32)
    requires
        rotated17(seed_prefix(key1, epoch1)) ^ sign_extended(t1) != rotated17(
            seed_prefix(key2, epoch2),
        ) ^ sign_extended(t2),
    ensures
        seed_of(key1, epoch1, t1) != seed_of(key2, epoch2, t2),
{
    let (x3, y3) = (
        rotated17(seed_prefix(key1, epoch1)) ^ sign_extended(t1),
        rotated17(seed_prefix(key2, epoch2)) ^ sign_extended(t2),
    );
    let (x4, y4) = (x3 ^ (x3 >> 33), y3 ^ (y3 >> 33));
    assert(x3 ^ (x3 >> 33) == y3 ^ (y3 >> 33) ==> x3 == y3) by (bit_vector);
    first_products_differ(x4, y4);
    let (x5, y5) = (
        wrapping_product(x4, 0xBF58_476D_1CE4_E5B9),
        wrapping_product(y4, 0xBF58_476D_1CE4_E5B9),
    );
    let (x6, y6) = (x5 ^ (x5 >> 29), y5 ^ (y5 >> 29));
    assert(x5 ^ (x5 >> 29) == y5 ^ (y5 >> 29) ==> x5 == y5) by (bit_vector);
    second_products_differ(x6, y6);
    let (x7, y7) = (
        wrapping_product(x6, 0x94D0_49BB_1331_11EB),
        wrapping_product(y6, 0x94D0_49BB_1331_11EB),
    );
    assert(x7 ^ (x7 >> 32) == y7 ^ (y7 >> 32) ==> x7 == y7) by (bit_vector);
}

/// Parameters have seeds of their own: in one epoch and one thread, different keys give different
/// seeds.
pub proof fn seeds_differ_by_key(key1: u64, key2: u64, epoch: i32, thread: i32)
    requires
        key1 != key2,
    ensures
        seed_of(key1, epoch, thread) != seed_of(key2, epoch, thread),
{
    let k: u64 = 0x9E37_79B9_7F4A_7C15;
    assert(key1 ^ k == key2 ^ k ==> key1 == key2) by (bit_vector);
    first_products_differ(key1 ^ k, key2 ^ k);
    let (x1, y1) = (
        wrapping_product(key1 ^ k, 0xBF58_476D_1CE4_E5B9),
        wrapping_product(key2 ^ k, 0xBF58_476D_1CE4_E5B9),
    );
    let e = wrapping_product(sign_extended(epoch), 0x94D0_49BB_1331_11EB);
    assert(x1 ^ e == y1 ^ e ==> x1 == y1) by (bit_vector);
    prefixes_differ(x1 ^ e, y1 ^ e, sign_extended(thread));
    mixed_states_differ(key1, key2, epoch, epoch, thread, thread);
}

/// Epochs have seeds of their own: for one key and one thread, different epochs give different
/// seeds.
pub proof fn seeds_differ_by_epoch(key: u64, epoch1: i32, epoch2: i32, thread: i32)
    requires
        epoch1 != epoch2,
    ensures
        seed_of(key, epoch1, thread) != seed_of(key, epoch2, thread),
{
    let h = wrapping_product(key ^ 0x9E37_79B9_7F4A_7C15, 0xBF58_476D_1CE4_E5B9);
    second_products_differ(sign_extended(epoch1), sign_extended(epoch2));
    let (x1, y1) = (
        wrapping_product(sign_extended(epoch1), 0x94D0_49BB_1331_11EB),
        wrapping_product(sign_extended(epoch2), 0x94D0_49BB_1331_11EB),
    );
    assert(h ^ x1 == h ^ y1 ==> x1 == y1) by (bit_vector);
    prefixes_differ(h ^ x1, h ^ y1, sign_extended(thread));
    mixed_states_differ(key, key, epoch1, epoch2, thread, thread);
}

/// Threads have seeds of their own: for one key and one epoch, different threads give different
/// seeds.
pub proof fn seeds_differ_by_thread(key: u64, epoch: i32, thread1: i32, thread2: i32)
    requires
        thread1 != thread2,
    ensures
        seed_of(key, epoch, thread1) != seed_of(key, epoch, thread2),
{
    let r = rotated17(seed_prefix(key, epoch));
    let (x, y) = (sign_extended(thread1), sign_extended(thread2));
    assert(r ^ x == r ^ y ==> x == y) by (bit_vector);
    mixed_states_differ(key, key, epoch, epoch, thread1, thread2);
}

proof fn prefixes_differ(x: u64, y: u64, t: u64)
    requires
        x != y,
    ensures
        rotated17(x) ^ t != rotated17(y) ^ t,
{
    assert(((x << 17) | (x >> 47)) ^ t == ((y << 17) | (y >> 47)) ^ t ==> x == y) by (bit_vector);
}

/// The quotient of two numbers, rounded towards zero.
pub open spec fn truncated_quotient(a: int, b: int) -> int {
    if (a < 0) == (b < 0) {
        (if a < 0 {
            -a
        } else {
            a
        }) / (if b < 0 {
            -b
        } else {
            b
        })
    } else {
        -((if a < 0 {
            -a
        } else {
            a
        }) / (if b < 0 {
            -b
        } else {
            b
        }))
    }
}

/// The quotient of two numbers, rounded towards zero.
fn quotient(a: i32, b: i32) -> (q: i32)
    requires
        b != 0,
        !(a == i32::MIN && b == -1),
    ensures
        q == truncated_quotient(a as int, b as int),
{
    let n: i64 = if a < 0 {
        -(a as i64)
    } else {
        a as i64
    };
    let d: i64 = if b < 0 {
        -(b as i64)
    } else {
        b as i64
    };
    let m: i64 = n / d;
    proof {
        assert(0 <= m <= n) by (nonlinear_arith)
            requires
                m == n as int / d as int,
                n >= 0,
                d >= 1,
        ;
        if d >= 2 {
            assert(m * 2 <= n) by (nonlinear_arith)
                requires
                    m == n as int / d as int,
                    n >= 0,
                    d >= 2,
            ;
        }
    }
    if (a < 0) == (b < 0) {
        m as i32
    } else {
        (-m) as i32
    }
}

/// The epoch whose noise an epoch uses: with a reuse factor of zero always the first.
pub open spec fn true_epoch(epoch: i32, noise_reuse: i32) -> i32 {
    if noise_reuse == 0 {
        0
    } else {
        truncated_quotient(epoch as int, noise_reuse as int) as i32
    }
}

/// The stream that a thread uses.
pub open spec fn true_thread(thread_id: i32) -> i32 {
    truncated_quotient(thread_id as int, 2) as i32
}

/// The sign of a thread's noise: plus for even threads.
pub open spec fn sign_of(thread_id: i32) -> i32 {
    if thread_id % 2 == 0 {
        1i32
    } else {
        -1i32
    }
}

/// Whether the epoch can be divided by the reuse factor within the range of `i32`.
pub open spec fn reuse_valid(info: IterInfo, noise_reuse: i32) -> bool {
    !(info.epoch == i32::MIN && noise_reuse == -1)
}

/// Tells whether the epoch can be divided by the reuse factor within the range of `i32`.
pub fn can_reuse(info: &IterInfo, noise_reuse: i32) -> (ok: bool)
    ensures
        ok == reuse_valid(*info, noise_reuse),
{
    !(info.epoch == i32::MIN && noise_reuse == -1)
}

/// The epoch, the stream and the sign of an iteration's noise.
pub fn epoch_thread_sign(info: &IterInfo, noise_reuse: i32) -> (r: (i32, i32, i32))
    requires
        reuse_valid(*info, noise_reuse),
    ensures
        r.0 == true_epoch(info.epoch, noise_reuse),
        r.1 == true_thread(info.thread_id),
        r.2 == sign_of(info.thread_id),
{
    let epoch: i32 = if noise_reuse == 0 {
        0
    } else {
        quotient(info.epoch, noise_reuse)
    };
    let thread: i32 = quotient(info.thread_id, 2);
    let id: i64 = info.thread_id as i64;
    let even: bool = if id < 0 {
        (-id) % 2 == 0
    } else {
        id % 2 == 0
    };
    (
        epoch,
        thread,
        if even {
            1
        } else {
            -1
        },
    )
}

/// The first state of the stream of a parameter and an iteration.
pub open spec fn stream_of(key: u64, info: IterInfo, noise_reuse: i32) -> u64 {
    seeded(seed_of(key, true_epoch(info.epoch, noise_reuse), true_thread(info.thread_id)))
}

/// The stream and the sign of a parameter and an iteration.
pub fn stream_for(key: u64, info: &IterInfo, noise_reuse: i32) -> (r: (DeterministicNoise, i32))
    requires
        reuse_valid(*info, noise_reuse),
    ensures
        r.0.state() == stream_of(key, *info, noise_reuse),
        r.1 == sign_of(info.thread_id),
{
    let (epoch, thread, sign): (i32, i32, i32) = epoch_thread_sign(info, noise_reuse);
    (DeterministicNoise::new(noise_seed(key, epoch, thread)), sign)
}

/// Antithetic pairs: for every pair of threads `2 * i` and `2 * i + 1`, both use one stream, with
/// opposite signs.
pub proof fn pairs_are_antithetic(key: u64, epoch: i32, noise_reuse: i32, i: int)
    requires
        0 <= 2 * i,
        2 * i + 1 <= i32::MAX,
    ensures
        ({
            let even = IterInfo { epoch, thread_id: (2 * i) as i32 };
            let odd = IterInfo { epoch, thread_id: (2 * i + 1) as i32 };
            &&& stream_of(key, even, noise_reuse) == stream_of(key, odd, noise_reuse)
            &&& sign_of(even.thread_id) == 1
            &&& sign_of(odd.thread_id) == -1
        }),
{
}

/// With a reuse factor of zero the epoch does not matter.
pub proof fn noise_without_reuse_is_fixed(key: u64, thread_id: i32, e1: i32, e2: i32)
    ensures
        stream_of(key, IterInfo { epoch: e1, thread_id }, 0) == stream_of(
            key,
            IterInfo { epoch: e2, thread_id },
            0,
        ),
{
}

/// Epochs of one group of `noise_reuse` share their noise.
pub proof fn reused_epochs_share_noise(
    key: u64,
    thread_id: i32,
    group: int,
    e1: i32,
    e2: i32,
    noise_reuse: i32,
)
    requires
        noise_reuse > 0,
        group >= 0,
        group * noise_reuse <= e1 < (group + 1) * noise_reuse,
        group * noise_reuse <= e2 < (group + 1) * noise_reuse,
    ensures
        stream_of(key, IterInfo { epoch: e1, thread_id }, noise_reuse) == stream_of(
            key,
            IterInfo { epoch: e2, thread_id },
            noise_reuse,
        ),
{
    assert(group * noise_reuse >= 0) by (nonlinear_arith)
        requires
            group >= 0,
            noise_reuse > 0,
    ;
    assert((group + 1) * noise_reuse == group * noise_reuse + noise_reuse) by (nonlinear_arith);
    vstd::arithmetic::div_mod::lemma_fundamental_div_mod_converse(
        e1 as int,
        noise_reuse as int,
        group,
        e1 - group * noise_reuse,
    );
    vstd::arithmetic::div_mod::lemma_fundamental_div_mod_converse(
        e2 as int,
        noise_reuse as int,
        group,
        e2 - group * noise_reuse,
    );
}

} // verus!
