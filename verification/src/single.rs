//! Rounding to single precision, in integers.
//!
//! A number of single precision has 24 significant bits. A product or a sum of
//! such numbers is rounded to the nearest one, and to the even one of two that
//! are equally near. Numerators over a fixed power of two are rounded alike.

use vstd::arithmetic::div_mod::*;
use vstd::arithmetic::power2::*;
use vstd::prelude::*;

verus! {

/// How many bits of `x` are beyond the 24 significant ones.
pub open spec fn spare_bits(x: nat) -> nat
    decreases x,
{
    if x < 0x100_0000 {
        0
    } else {
        1 + spare_bits(x / 2)
    }
}

/// How far apart the numbers of 24 significant bits are around `x`.
pub open spec fn spacing(x: nat) -> nat {
    pow2(spare_bits(x))
}

/// `x` rounded to 24 significant bits: to the nearest multiple of the spacing, and to the even one
/// of two that are equally near.
pub open spec fn rounded(x: nat) -> nat {
    let s = spacing(x);
    let (below, rest) = (x / s, x % s);
    if 2 * rest > s || (2 * rest == s && below % 2 == 1) {
        (below + 1) * s
    } else {
        below * s
    }
}

/// The significant bits are at most 24, and exactly 24 where bits are spare.
pub proof fn spacing_bounds(x: nat)
    ensures
        spacing(x) > 0,
        x < 0x100_0000 * spacing(x),
        x >= 0x100_0000 ==> 0x80_0000 * spacing(x) <= x && spacing(x) >= 2,
        x < 0x100_0000 ==> spacing(x) == 1,
        spacing(x) <= x || spacing(x) == 1,
    decreases x,
{
    lemma_pow2_pos(spare_bits(x));
    lemma2_to64();
    if x >= 0x100_0000 {
        spacing_bounds(x / 2);
        lemma_pow2_unfold(spare_bits(x));
        lemma_pow2_pos(spare_bits(x / 2));
        assert(spacing(x) == 2 * spacing(x / 2));
    }
}

/// How far rounding moves a number: by at most half the spacing, and to a multiple of it.
pub proof fn rounding_error(x: nat)
    ensures
        2 * (rounded(x) - x) <= spacing(x),
        2 * (x - rounded(x)) <= spacing(x),
        rounded(x) % spacing(x) == 0,
        rounded(x) <= 0x100_0000 * spacing(x),
        x < 0x100_0000 ==> rounded(x) == x,
{
    let s = spacing(x);
    spacing_bounds(x);
    lemma_fundamental_div_mod(x as int, s as int);
    let below = x / s;
    let rest = x % s;
    assert(below < 0x100_0000) by (nonlinear_arith)
        requires
            below == x / s,
            x < 0x100_0000 * s,
            s > 0,
    ;
    assert((below + 1) * s == below * s + s) by (nonlinear_arith);
    assert(s * below == below * s) by (nonlinear_arith);
    assert((below + 1) * s <= 0x100_0000 * s) by (nonlinear_arith)
        requires
            below + 1 <= 0x100_0000,
            s > 0,
    ;
    lemma_mod_multiples_basic(below as int, s as int);
    lemma_mod_multiples_basic((below + 1) as int, s as int);
}

/// Rounding keeps numbers of 24 significant bits.
pub proof fn rounding_keeps(q: nat, k: nat)
    requires
        q < 0x100_0000,
    ensures
        rounded(q * pow2(k)) == q * pow2(k),
    decreases k,
{
    let x = q * pow2(k);
    let s = spacing(x);
    spacing_bounds(x);
    lemma_pow2_pos(k);
    assert(x % s == 0) by {
        if spare_bits(x) <= k {
            let d = (k - spare_bits(x)) as nat;
            lemma_pow2_adds(d, spare_bits(x));
            assert(x == (q * pow2(d)) * s) by (nonlinear_arith)
                requires
                    x == q * pow2(k),
                    pow2(k) == pow2(d) * s,
            ;
            lemma_mod_multiples_basic((q * pow2(d)) as int, s as int);
        } else {
            lemma_pow2_strictly_increases(k, spare_bits(x));
            let d = (spare_bits(x) - k) as nat;
            lemma_pow2_adds(k, d);
            lemma_pow2_pos(d);
            lemma_pow2_unfold(d);
            lemma_pow2_pos((d - 1) as nat);
            // The number would have more than 24 significant bits.
            assert(x >= 0x100_0000);
            assert(0x80_0000 * s <= x);
            assert(false) by (nonlinear_arith)
                requires
                    0x80_0000 * s <= x,
                    x == q * pow2(k),
                    s == pow2(k) * pow2(d),
                    pow2(d) == 2 * pow2((d - 1) as nat),
                    pow2((d - 1) as nat) >= 1,
                    pow2(k) > 0,
                    q < 0x100_0000,
            ;
        }
    }
    lemma_fundamental_div_mod(x as int, s as int);
    assert(s * (x / s) == (x / s) * s) by (nonlinear_arith);
}

/// How far apart the numbers of 24 significant bits are around `x`.
fn spacing_of(x: u64) -> (s: u64)
    ensures
        s == spacing(x as nat),
        0 < s,
        s <= x || s == 1,
    decreases x,
{
    proof {
        spacing_bounds(x as nat);
        lemma2_to64();
    }
    if x < 0x100_0000 {
        1
    } else {
        proof {
            spacing_bounds((x / 2) as nat);
            lemma_pow2_unfold(spare_bits(x as nat));
        }
        2 * spacing_of(x / 2)
    }
}

/// Rounds a numerator to 24 significant bits.
pub fn round_single(x: u64) -> (r: u64)
    requires
        x < 0x8000_0000_0000_0000,
    ensures
        r as nat == rounded(x as nat),
{
    let s: u64 = spacing_of(x);
    let below: u64 = x / s;
    let rest: u64 = x % s;
    proof {
        spacing_bounds(x as nat);
        rounding_error(x as nat);
        lemma_fundamental_div_mod(x as int, s as int);
        lemma_mod_bound(x as int, s as int);
        assert(s * below == below * s) by (nonlinear_arith);
        assert((below + 1) * s == below * s + s) by (nonlinear_arith);
    }
    if rest > s - rest || (rest == s - rest && below % 2 == 1) {
        (below + 1) * s
    } else {
        below * s
    }
}

/// A unit draw below one, times a number: the product of a numerator over 2^24 and the rounded
/// number, rounded, is below the number.
pub proof fn scaled_draw_stays_below(u: nat, elems: nat)
    requires
        u < 0x100_0000,
        0 < elems,
    ensures
        rounded(u * rounded(elems)) < 0x100_0000 * elems,
{
    let e = rounded(elems);
    let x = u * e;
    let (s, t) = (spacing(elems), spacing(x));
    spacing_bounds(elems);
    rounding_error(elems);
    spacing_bounds(x);
    rounding_error(x);
    assert(x <= 0xff_ffff * e) by (nonlinear_arith)
        requires
            x == u * e,
            u <= 0xff_ffff,
    ;
    if x >= 0x100_0000 {
        // Half the spacing is less than `e`.
        assert(0x80_0000 * t <= x);
        assert(rounded(x) < 0x100_0000 * e);
    }
    if e > elems {
        assert(elems >= 0x100_0000);
        assert(s >= 2 && 0x80_0000 * s <= elems);
        let m = e / s;
        lemma_fundamental_div_mod(e as int, s as int);
        assert(e == m * s) by (nonlinear_arith)
            requires
                e == s * m,
        ;
        assert(0x80_0000 * s < e);
        assert(x < 0x100_0000 * e - 0x80_0000 * s);
        if spare_bits(x) >= spare_bits(elems) + 24 {
            let d = (spare_bits(x) - spare_bits(elems) - 24) as nat;
            lemma2_to64();
            lemma_pow2_adds(24, d);
            lemma_pow2_adds(spare_bits(elems), 24 + d);
            lemma_pow2_pos(d);
            // The result is a multiple of `2^24 * s`, as is `2^24 * e`.
            let w = pow2(d);
            assert(t == (0x100_0000 * s) * w) by (nonlinear_arith)
                requires
                    t == s * (0x100_0000 * w),
            ;
            let n = rounded(x) / t;
            lemma_fundamental_div_mod(rounded(x) as int, t as int);
            assert(rounded(x) == (0x100_0000 * s) * (w * n)) by (nonlinear_arith)
                requires
                    rounded(x) == t * n,
                    t == (0x100_0000 * s) * w,
            ;
            assert(0x100_0000 * e == (0x100_0000 * s) * m) by (nonlinear_arith)
                requires
                    e == m * s,
            ;
            assert(w * n < m) by (nonlinear_arith)
                requires
                    (0x100_0000 * s) * (w * n) < (0x100_0000 * s) * m,
                    s > 0,
            ;
            assert((0x100_0000 * s) * (w * n) <= (0x100_0000 * s) * (m - 1)) by (nonlinear_arith)
                requires
                    w * n <= m - 1,
                    s > 0,
            ;
            assert((0x100_0000 * s) * (m - 1) == 0x100_0000 * e - 0x100_0000 * s)
                by (nonlinear_arith)
                requires
                    e == m * s,
            ;
        } else {
            // The result lies in a lower range of numbers, which ends below `2^24 * elems`.
            lemma2_to64();
            lemma_pow2_adds(spare_bits(elems), 23);
            if spare_bits(x) < spare_bits(elems) + 23 {
                lemma_pow2_strictly_increases(spare_bits(x), spare_bits(elems) + 23);
            }
            assert(t <= 0x80_0000 * s);
            assert(rounded(x) <= 0x100_0000 * (0x80_0000 * s));
            if elems == 0x80_0000 * s {
                rounding_keeps(0x80_0000, spare_bits(elems));
            }
            assert(elems > 0x80_0000 * s);
        }
    }
}

} // verus!
