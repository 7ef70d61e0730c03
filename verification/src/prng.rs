//! Pseudo-random number generators: the combined Tausworthe and linear
//! congruential generator of the normal-noise kernel, and the xorshift
//! generators of spike encoding and deterministic noise.

use vstd::prelude::*;

verus! {

// ---------------------------------------------------------------------------
// Tausworthe and linear congruential steps
// ---------------------------------------------------------------------------
/// One Tausworthe step.
pub open spec fn taus(z: u32, s1: u32, s2: u32, s3: u32, m: u32) -> u32 {
    ((z & m) << s3) ^ (((z << s1) ^ z) >> s2)
}

/// One Tausworthe step.
pub fn taus_step(z: u32, s1: u32, s2: u32, s3: u32, m: u32) -> (r: u32)
    requires
        s1 < 32,
        s2 < 32,
        s3 < 32,
    ensures
        r == taus(z, s1, s2, s3, m),
{
    let b: u32 = z << s1;
    let b: u32 = b ^ z;
    let b: u32 = b >> s2;
    let z: u32 = (z & m) << s3;
    z ^ b
}

/// The step of the first state word.
pub fn taus_step_0(z: u32) -> (r: u32)
    ensures
        r == taus(z, 13, 19, 12, 4294967294),
{
    taus_step(z, 13, 19, 12, 4294967294)
}

/// The step of the second state word.
pub fn taus_step_1(z: u32) -> (r: u32)
    ensures
        r == taus(z, 2, 25, 4, 4294967288),
{
    taus_step(z, 2, 25, 4, 4294967288)
}

/// The step of the third state word.
pub fn taus_step_2(z: u32) -> (r: u32)
    ensures
        r == taus(z, 3, 11, 17, 4294967280),
{
    taus_step(z, 3, 11, 17, 4294967280)
}

/// The step of the fourth state word.
pub open spec fn lcg(z: u32) -> u32 {
    ((z as int * 1664525 + 1013904223) % 0x1_0000_0000) as u32
}

/// The step of the fourth state word.
pub fn lcg_step(z: u32) -> (r: u32)
    ensures
        r == lcg(z),
{
    let wide: u64 = (z as u64) * 1664525 + 1013904223;
    (wide % 0x1_0000_0000) as u32
}

/// The four state words after one round.
pub open spec fn round(st: Seq<u32>) -> Seq<u32> {
    seq![
        taus(st[0], 13, 19, 12, 4294967294),
        taus(st[1], 2, 25, 4, 4294967288),
        taus(st[2], 3, 11, 17, 4294967280),
        lcg(st[3]),
    ]
}

/// The word that a state gives.
pub open spec fn mixed(st: Seq<u32>) -> u32 {
    st[0] ^ st[1] ^ st[2] ^ st[3]
}

/// The sum of two words, modulo 2^32.
pub open spec fn wrapping_sum(a: u32, b: u32) -> u32 {
    ((a + b) % 0x1_0000_0000) as u32
}

/// The seed of a thread.
pub open spec fn seed_of_thread(thread_id: u32) -> u32 {
    ((1000000007 * thread_id) % 0x1_0000_0000) as u32
}

/// The seed of a thread: a fixed prime times the thread id, modulo 2^32.
pub fn thread_seed(thread_id: u32) -> (s: u32)
    ensures
        s == seed_of_thread(thread_id),
{
    (1000000007u64 * (thread_id as u64) % 0x1_0000_0000) as u32
}

fn wrapping_sum_of(a: u32, b: u32) -> (s: u32)
    ensures
        s == wrapping_sum(a, b),
{
    ((a as u64 + b as u64) % 0x1_0000_0000) as u32
}

/// The first state of a thread.
pub open spec fn first_state(thread_id: u32, seeds: Seq<u32>) -> Seq<u32> {
    seq![
        wrapping_sum(seed_of_thread(thread_id), seeds[0]),
        wrapping_sum(seed_of_thread(thread_id), seeds[1]),
        wrapping_sum(seed_of_thread(thread_id), seeds[2]),
        wrapping_sum(seed_of_thread(thread_id), seeds[3]),
    ]
}

/// The first state of a thread: each seed shifted by the seed of the thread.
pub fn init_states(thread_id: u32, seed_0: u32, seed_1: u32, seed_2: u32, seed_3: u32) -> (st: [u32;
    4])
    ensures
        st@ == first_state(thread_id, seq![seed_0, seed_1, seed_2, seed_3]),
{
    let s: u32 = thread_seed(thread_id);
    let st: [u32; 4] = [
        wrapping_sum_of(s, seed_0),
        wrapping_sum_of(s, seed_1),
        wrapping_sum_of(s, seed_2),
        wrapping_sum_of(s, seed_3),
    ];
    proof {
        assert(st@ =~= first_state(thread_id, seq![seed_0, seed_1, seed_2, seed_3]));
    }
    st
}

// ---------------------------------------------------------------------------
// Unit draws
// ---------------------------------------------------------------------------
/// The denominator of a unit draw, 2^23 + 1.
pub const UNIT_DENOMINATOR: u32 = 8388609;

/// A word as the numerator of a number strictly between zero and one.
pub open spec fn unit_numerator(word: u32) -> u32 {
    (word / 512 + 1) as u32
}

/// A word as the numerator, over [`UNIT_DENOMINATOR`], of a number strictly between zero and
/// one.
pub fn to_unit_interval_open(int_random: u32) -> (numerator: u32)
    ensures
        numerator == unit_numerator(int_random),
        0 < numerator < UNIT_DENOMINATOR,
{
    proof {
        assert(int_random >> 9u32 == int_random / 512) by (bit_vector);
    }
    (int_random >> 9) + 1
}

/// Advances the state by one round and gives the numerator of its word.
fn next_numerator(st: &mut [u32; 4]) -> (u: u32)
    ensures
        final(st)@ == round(old(st)@),
        u == unit_numerator(mixed(round(old(st)@))),
{
    let next: [u32; 4] = [
        taus_step_0(st[0]),
        taus_step_1(st[1]),
        taus_step_2(st[2]),
        lcg_step(st[3]),
    ];
    *st = next;
    proof {
        assert(next@ =~= round(old(st)@));
    }
    to_unit_interval_open(next[0] ^ next[1] ^ next[2] ^ next[3])
}

/// The numerators of the two draws that a state gives.
pub open spec fn unit_pair(st: Seq<u32>) -> (u32, u32) {
    (unit_numerator(mixed(round(st))), unit_numerator(mixed(round(round(st)))))
}

/// Advances the state by two rounds and gives the numerators of two unit draws.
pub fn next_units(st: &mut [u32; 4]) -> (units: (u32, u32))
    ensures
        final(st)@ == round(round(old(st)@)),
        units == unit_pair(old(st)@),
        0 < units.0 < UNIT_DENOMINATOR,
        0 < units.1 < UNIT_DENOMINATOR,
{
    let unit_0: u32 = next_numerator(st);
    let unit_1: u32 = next_numerator(st);
    (unit_0, unit_1)
}

// ---------------------------------------------------------------------------
// Xorshift
// ---------------------------------------------------------------------------
/// One 32-bit xorshift step.
pub open spec fn xorshift32(x: u32) -> u32 {
    let a = x ^ (x << 13);
    let b = a ^ (a >> 17);
    b ^ (b << 5)
}

/// One 64-bit xorshift step.
pub open spec fn xorshift64(x: u64) -> u64 {
    let a = x ^ (x << 13);
    let b = a ^ (a >> 7);
    b ^ (b << 17)
}

/// Advances a 32-bit xorshift state and gives it as the numerator of a unit draw.
pub fn next_unit(x: &mut u32) -> (numerator: u32)
    ensures
        *final(x) == xorshift32(*old(x)),
        numerator == unit_numerator(xorshift32(*old(x))),
        0 < numerator < UNIT_DENOMINATOR,
{
    let mut v: u32 = *x;
    v = v ^ (v << 13);
    v = v ^ (v >> 17);
    v = v ^ (v << 5);
    *x = v;
    to_unit_interval_open(v)
}

/// Advances a 64-bit xorshift state.
pub fn next_xorshift64(x: u64) -> (r: u64)
    ensures
        r == xorshift64(x),
{
    let mut v: u64 = x;
    v = v ^ (v << 13);
    v = v ^ (v >> 7);
    v = v ^ (v << 17);
    v
}

/// A 32-bit xorshift state that is not zero never becomes zero.
pub proof fn xorshift32_stays_alive(x: u32)
    requires
        x != 0,
    ensures
        xorshift32(x) != 0,
{
    assert(x != 0 ==> (x ^ (x << 13u32)) != 0) by (bit_vector);
    let a = x ^ (x << 13);
    assert(a != 0 ==> (a ^ (a >> 17u32)) != 0) by (bit_vector);
    let b = a ^ (a >> 17);
    assert(b != 0 ==> (b ^ (b << 5u32)) != 0) by (bit_vector);
}

/// A 64-bit xorshift state that is not zero never becomes zero.
pub proof fn xorshift64_stays_alive(x: u64)
    requires
        x != 0,
    ensures
        xorshift64(x) != 0,
{
    assert(x != 0 ==> (x ^ (x << 13u64)) != 0) by (bit_vector);
    let a = x ^ (x << 13);
    assert(a != 0 ==> (a ^ (a >> 7u64)) != 0) by (bit_vector);
    let b = a ^ (a >> 7);
    assert(b != 0 ==> (b ^ (b << 17u64)) != 0) by (bit_vector);
}

/// Two 64-bit xorshift states never run together.
pub proof fn xorshift64_is_injective(x: u64, y: u64)
    requires
        xorshift64(x) == xorshift64(y),
    ensures
        x == y,
{
    let a = x ^ (x << 13);
    let c = y ^ (y << 13);
    let b = a ^ (a >> 7);
    let d = c ^ (c >> 7);
    assert(b ^ (b << 17u64) == d ^ (d << 17u64) ==> b == d) by (bit_vector);
    assert(a ^ (a >> 7u64) == c ^ (c >> 7u64) ==> a == c) by (bit_vector);
    assert(x ^ (x << 13u64) == y ^ (y << 13u64) ==> x == y) by (bit_vector);
}

} // verus!
