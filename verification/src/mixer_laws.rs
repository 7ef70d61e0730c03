//! What recurrent mixers are for: the gates in exact arithmetic, the weights that
//! each of them depends on, and what is carried from call to call.

use vstd::prelude::*;

use crate::mixers::{
    fit, last_row, shifted_rows, AttentionPass, Binary, ChannelPass, Gates6, Gates7, Mixed7,
    PerHead, TimePass, Unary,
};
use crate::ops::{held, list_of, listed1, seen1, value1, value2, value3};
use crate::reals::{real_sum, sum_of_multiples, sum_of_sums, times_one};
use crate::recurrent::{outputs, state_after, MixerShape};
use crate::scan_laws::steps_are_the_scan;

verus! {

/// Functions of real numbers.
pub struct Functions {
    /// The exponential.
    pub exp: spec_fn(real) -> real,
    /// Hyperbolic tangent.
    pub tanh: spec_fn(real) -> real,
    /// Logistic function.
    pub sigmoid: spec_fn(real) -> real,
    /// Logarithm of one plus the exponential.
    pub softplus: spec_fn(real) -> real,
}

impl Functions {
    /// The exponential is positive, one at zero, and grows.
    pub open spec fn grows(self) -> bool {
        &&& forall|x: real| #[trigger] (self.exp)(x) > 0real
        &&& (self.exp)(0real) == 1real
        &&& forall|x: real, y: real|
            x < y ==> #[trigger] (self.exp)(x) < #[trigger] (self.exp)(y)
        &&& forall|x: real| #[trigger] (self.softplus)(x) > 0real
        &&& forall|x: real, y: real|
            x < y ==> #[trigger] (self.softplus)(x) < #[trigger] (self.softplus)(y)
        &&& forall|x: real| 0real < #[trigger] (self.sigmoid)(x) < 1real
    }
}

/// A number, or minus five where it is below.
pub open spec fn at_least_minus_five(x: real) -> real {
    if x < -5real {
        -5real
    } else {
        x
    }
}

/// Whether operations on each element are what they are called.
pub open spec fn unary_exact<X, UN: Fn(&Unary, &X) -> X>(
    unary: UN,
    at: spec_fn(X, int, int) -> real,
    fns: Functions,
) -> bool {
    &&& forall|x: X, t: int, c: int| #[trigger]
        at(value2::<Unary, X, X, UN>(unary, Unary::Tanh, x), t, c) == (fns.tanh)(at(x, t, c))
    &&& forall|x: X, t: int, c: int| #[trigger]
        at(value2::<Unary, X, X, UN>(unary, Unary::Sigmoid, x), t, c) == (fns.sigmoid)(at(x, t, c))
    &&& forall|x: X, t: int, c: int| #[trigger]
        at(value2::<Unary, X, X, UN>(unary, Unary::Relu, x), t, c) == (if at(x, t, c) < 0real {
            0real
        } else {
            at(x, t, c)
        })
    &&& forall|x: X, t: int, c: int| #[trigger]
        at(value2::<Unary, X, X, UN>(unary, Unary::Square, x), t, c) == at(x, t, c) * at(x, t, c)
    &&& forall|x: X, t: int, c: int| #[trigger]
        at(value2::<Unary, X, X, UN>(unary, Unary::Exp, x), t, c) == (fns.exp)(at(x, t, c))
    &&& forall|x: X, t: int, c: int| #[trigger]
        at(value2::<Unary, X, X, UN>(unary, Unary::Neg, x), t, c) == -at(x, t, c)
    &&& forall|x: X, t: int, c: int| #[trigger]
        at(value2::<Unary, X, X, UN>(unary, Unary::Softplus, x), t, c) == (fns.softplus)(
            at(x, t, c),
        )
    &&& forall|x: X, t: int, c: int| #[trigger]
        at(value2::<Unary, X, X, UN>(unary, Unary::LessHalf, x), t, c) == at(x, t, c) - 1real
            / 2real
    &&& forall|x: X, t: int, c: int| #[trigger]
        at(value2::<Unary, X, X, UN>(unary, Unary::LessOne, x), t, c) == at(x, t, c) - 1real
    &&& forall|x: X, t: int, c: int| #[trigger]
        at(value2::<Unary, X, X, UN>(unary, Unary::PlusOne, x), t, c) == at(x, t, c) + 1real
    &&& forall|x: X, t: int, c: int| #[trigger]
        at(value2::<Unary, X, X, UN>(unary, Unary::AtLeastMinusFive, x), t, c) == (if at(x, t, c)
            < -5real {
            -5real
        } else {
            at(x, t, c)
        })
}

/// Whether operations on each pair of elements are what they are called.
pub open spec fn binary_exact<X, BI: Fn(&Binary, &X, &X) -> X>(
    binary: BI,
    at: spec_fn(X, int, int) -> real,
) -> bool {
    &&& forall|x: X, y: X, t: int, c: int| #[trigger]
        at(value3::<Binary, X, X, X, BI>(binary, Binary::Add, x, y), t, c) == at(x, t, c) + at(
            y,
            t,
            c,
        )
    &&& forall|x: X, y: X, t: int, c: int| #[trigger]
        at(value3::<Binary, X, X, X, BI>(binary, Binary::Sub, x, y), t, c) == at(x, t, c) - at(
            y,
            t,
            c,
        )
    &&& forall|x: X, y: X, t: int, c: int| #[trigger]
        at(value3::<Binary, X, X, X, BI>(binary, Binary::Mul, x, y), t, c) == at(x, t, c) * at(
            y,
            t,
            c,
        )
}

/// Whether a row of channels acts alike on every time step.
pub open spec fn channel_exact<C, X, CH: Fn(&C) -> X>(
    channel: CH,
    at: spec_fn(X, int, int) -> real,
    chan: spec_fn(C, int) -> real,
) -> bool {
    forall|p: C, t: int, c: int| #[trigger]
        at(value1::<C, X, CH>(channel, p), t, c) == chan(p, c)
}

/// Whether rows of given elements hold them row by row.
pub open spec fn rows_exact<T, X, RW: Fn(&Vec<T>) -> X>(
    rows: RW,
    at: spec_fn(X, int, int) -> real,
    num: spec_fn(T) -> real,
    m: MixerShape,
) -> bool {
    forall|list: Seq<T>, t: int, c: int|
        held(list) && list.len() == m.t * m.c && 0 <= t < m.t && 0 <= c < m.c ==> #[trigger] at(
            seen1::<T, X, RW>(rows, list),
            t,
            c,
        ) == num(list[t * m.c + c])
}

/// The elements of head `h` at time step `t`.
pub open spec fn head_of<X>(
    at: spec_fn(X, int, int) -> real,
    x: X,
    t: int,
    h: int,
    s: nat,
) -> Seq<real> {
    Seq::new(s, |l: int| at(x, t, h * s + l))
}

/// The sum of the squares of the elements of a head.
pub open spec fn head_square<X>(
    at: spec_fn(X, int, int) -> real,
    x: X,
    t: int,
    h: int,
    s: nat,
) -> real {
    real_sum(head_of(at, x, t, h, s).map_values(|v: real| v * v))
}

/// Whether operations on the channels of each head are what they are called: a head divided by its
/// norm has norm one, and points the same way; the sum over a head stands at each of its channels;
/// a scaled head times the root of its size is the head.
pub open spec fn per_head_exact<X, PH: Fn(&PerHead, &X, &MixerShape) -> X>(
    per_head: PH,
    at: spec_fn(X, int, int) -> real,
    m: MixerShape,
) -> bool {
    &&& forall|x: X, t: int, h: int|
        0 <= h < m.h && head_square(at, x, t, h, m.s as nat) != 0real ==> #[trigger] head_square(
            at,
            value3::<PerHead, X, MixerShape, X, PH>(per_head, PerHead::Unit, x, m),
            t,
            h,
            m.s as nat,
        ) == 1real
    &&& forall|x: X, t: int, c: int, d: int|
        0 <= c < m.c && 0 <= d < m.c && c / (m.s as int) == d / (m.s as int) ==> #[trigger] at(
            value3::<PerHead, X, MixerShape, X, PH>(per_head, PerHead::Unit, x, m),
            t,
            c,
        ) * at(x, t, d) == #[trigger] at(
            value3::<PerHead, X, MixerShape, X, PH>(per_head, PerHead::Unit, x, m),
            t,
            d,
        ) * at(x, t, c)
    &&& forall|x: X, t: int, c: int| #[trigger]
        at(value3::<PerHead, X, MixerShape, X, PH>(per_head, PerHead::Spread, x, m), t, c)
            == real_sum(head_of(at, x, t, c / (m.s as int), m.s as nat))
    &&& forall|x: X, t: int, c: int| #[trigger]
        at(value3::<PerHead, X, MixerShape, X, PH>(per_head, PerHead::Scale, x, m), t, c) * (
        #[trigger] at(
            value3::<PerHead, X, MixerShape, X, PH>(per_head, PerHead::Scale, x, m),
            t,
            c,
        )) * (m.s as real) == at(x, t, c) * at(x, t, c)
    &&& forall|x: X, t: int, c: int| #[trigger]
        at(value3::<PerHead, X, MixerShape, X, PH>(per_head, PerHead::Scale, x, m), t, c) * at(
            x,
            t,
            c,
        ) >= 0real
}

/// The number that stands before channel `c` of row `t`: nothing before a row that starts a new
/// sequence, that of the carried row before the first row, else that of the row before.
pub open spec fn number_before<T>(
    m: MixerShape,
    x: Seq<T>,
    state: Seq<T>,
    new_starts: Seq<bool>,
    t: int,
    c: int,
    num: spec_fn(T) -> real,
) -> real {
    if new_starts[t] {
        0real
    } else if t == 0 {
        num(state[c])
    } else {
        num(x[(t - 1) * m.c + c])
    }
}

/// An element of a row lies within the rows.
proof fn element_within(t: int, c: int, rows: int, width: int)
    requires
        0 <= t < rows,
        0 <= c < width,
    ensures
        0 <= t * width + c < rows * width,
{
    assert(0 <= t * width + c < rows * width) by (nonlinear_arith)
        requires
            0 <= t < rows,
            0 <= c < width,
    ;
}

// ---------------------------------------------------------------------------
// The time mixer
// ---------------------------------------------------------------------------
impl<
    'a,
    T: Copy,
    C,
    L,
    Q,
    M,
    X,
    S,
    O,
    RW,
    CH,
    LI,
    LO,
    UN,
    BI,
    PH,
    LD,
    ST,
    CS,
    SV,
    SK,
    NO,
    CX,
> TimePass<
    'a,
    T,
    C,
    L,
    Q,
    M,
    S,
    RW,
    CH,
    LI,
    LO,
    UN,
    BI,
    PH,
    LD,
    ST,
    CS,
    SV,
    SK,
    NO,
    CX,
> where
    RW: Fn(&Vec<T>) -> X,
    CH: Fn(&C) -> X,
    LI: Fn(&L, &X) -> X,
    LO: Fn(&Q, &X) -> X,
    UN: Fn(&Unary, &X) -> X,
    BI: Fn(&Binary, &X, &X) -> X,
    PH: Fn(&PerHead, &X, &MixerShape) -> X,
    LD: Fn(&Vec<T>) -> S,
    ST: Fn(&S, &Gates7<X>, &usize) -> (S, O),
    CS: Fn(&S) -> S,
    SV: Fn(&S) -> Vec<T>,
    SK: Fn(&Vec<O>) -> X,
    NO: Fn(&M, &X, &usize) -> X,
    CX: Fn(&X) -> X,
 {
    /// Whether the arithmetic is exact, `at` giving the elements of rows.
    pub open spec fn exact(
        &self,
        at: spec_fn(X, int, int) -> real,
        fns: Functions,
        chan: spec_fn(C, int) -> real,
        num: spec_fn(T) -> real,
    ) -> bool {
        &&& unary_exact::<X, UN>(self.unary, at, fns)
        &&& binary_exact::<X, BI>(self.binary, at)
        &&& channel_exact::<C, X, CH>(self.channel, at, chan)
        &&& rows_exact::<T, X, RW>(self.rows, at, num, self.shape)
        &&& per_head_exact::<X, PH>(self.per_head, at, self.shape)
    }

    /// Mixing strengths choose between rows: rows mixed with strength zero are the rows, with
    /// strength one the rows before them, and in between the share of the way that the strength
    /// says. The row before the first is the carried one, and none stands before a row that starts
    /// a new sequence.
    pub proof fn strengths_choose_the_row(
        &self,
        x: Seq<T>,
        state: Seq<T>,
        new_starts: Seq<bool>,
        strength: C,
        t: int,
        c: int,
        at: spec_fn(X, int, int) -> real,
        fns: Functions,
        chan: spec_fn(C, int) -> real,
        num: spec_fn(T) -> real,
    )
        requires
            self.exact(at, fns, chan, num),
            fit(self.shape, x, state, new_starts),
            num(self.zero) == 0real,
            x.len() <= usize::MAX,
            held(x),
            held(shifted_rows(self.shape, x, state, new_starts, self.zero)),
            0 <= t < self.shape.t,
            0 <= c < self.shape.c,
        ensures
            ({
                let (now, sx) = self.shifts(x, state, new_starts);
                let here = num(x[t * self.shape.c + c]);
                let before = number_before(self.shape, x, state, new_starts, t, c, num);
                &&& at(now, t, c) == here
                &&& at(self.blended(now, sx, self.row(strength)), t, c) == here + chan(strength, c)
                    * (before - here)
            }),
    {
        let w = self.shape.c as int;
        let list = shifted_rows(self.shape, x, state, new_starts, self.zero);
        element_within(t, c, self.shape.t as int, w);
        vstd::arithmetic::div_mod::lemma_fundamental_div_mod_converse(t * w + c, w, t, c);
        assert(list_of(x)@ == x);
        assert(list_of(list)@ == list);
        let (now, before) = (seen1::<T, X, RW>(self.rows, x), seen1::<T, X, RW>(self.rows, list));
        assert(at(now, t, c) == num(x[t * w + c]));
        assert(at(before, t, c) == num(list[t * w + c]));
        if t == 0 {
            assert(0 * w == 0);
        } else {
            assert((t - 1) * w == t * w - w) by (nonlinear_arith);
            assert(t * w >= w) by (nonlinear_arith)
                requires
                    t >= 1,
                    w >= 0,
            ;
        }
        let (h, b, s) = (at(now, t, c), at(before, t, c), chan(strength, c));
        let sx = self.bi(Binary::Sub, before, now);
        let part = self.bi(Binary::Mul, sx, self.row(strength));
        assert(at(sx, t, c) == b - h);
        assert(at(part, t, c) == (b - h) * s);
        assert((b - h) * s == s * (b - h)) by (nonlinear_arith);
    }

    /// Networks are odd: where weights act linearly and the bend is odd, opposite inputs have
    /// opposite outputs.
    pub proof fn networks_are_odd(
        &self,
        p: Q,
        q: Q,
        x: X,
        minus: spec_fn(X) -> X,
    )
        requires
            forall|w: Q, y: X| #[trigger]
                value2::<Q, X, X, LO>(self.low, w, minus(y)) == minus(
                    value2::<Q, X, X, LO>(self.low, w, y),
                ),
            forall|y: X| #[trigger]
                value2::<Unary, X, X, UN>(self.unary, Unary::Tanh, minus(y)) == minus(
                    value2::<Unary, X, X, UN>(self.unary, Unary::Tanh, y),
                ),
        ensures
            self.network(p, q, minus(x)) == minus(self.network(p, q, x)),
    {
    }

    /// What a call saves the next one loads: where loading undoes saving, the state that a call
    /// gives carries the last counting row of its input, and the state of the recurrence behind
    /// that row.
    proof fn saved_is_loaded(
        &self,
        gates: Gates7<X>,
        x: Seq<T>,
        state: Seq<T>,
        new_starts: Seq<bool>,
    )
        requires
            fit(self.shape, x, state, new_starts),
            forall|s: S| #[trigger]
                seen1::<T, S, LD>(self.load, listed1::<S, T, SV>(self.save, s)) == s,
        ensures
            ({
                let m = self.shape;
                let next = last_row(m, x) + self.scanned(gates, state, new_starts).1;
                &&& next.take(m.c as int) == x.subrange((m.length - 1) * m.c, m.length * m.c)
                &&& seen1::<T, S, LD>(self.load, next.skip(m.c as int)) == state_after::<
                    S,
                    Gates7<X>,
                    O,
                    ST,
                >(
                    self.step,
                    gates,
                    seen1::<T, S, LD>(self.load, state.skip(m.c as int)),
                    self.zero_state,
                    new_starts,
                    m.length as nat,
                )
            }),
    {
        let m = self.shape;
        let saved = self.scanned(gates, state, new_starts).1;
        let row = last_row(m, x);
        assert((m.length - 1) * m.c >= 0 && m.length * m.c <= m.t * m.c && m.length * m.c == (
        m.length - 1) * m.c + m.c) by (nonlinear_arith)
            requires
                0 < m.length <= m.t,
                0 < m.c,
        ;
        assert((row + saved).take(m.c as int) =~= row);
        assert((row + saved).skip(m.c as int) =~= saved);
    }

    /// What a call gives carries over: the state behind a call loads as the state of its recurrence
    /// behind the last counting row, in front of which that row stands.
    pub proof fn state_carries_over(
        &self,
        x: Seq<T>,
        state: Seq<T>,
        v_first: X,
        new_starts: Seq<bool>,
    )
        requires
            fit(self.shape, x, state, new_starts),
            forall|s: S| #[trigger]
                seen1::<T, S, LD>(self.load, listed1::<S, T, SV>(self.save, s)) == s,
        ensures
            ({
                let m = self.shape;
                let next = self.result(x, state, v_first, new_starts).1;
                let (now, sx) = self.shifts(x, state, new_starts);
                &&& next.take(m.c as int) == x.subrange((m.length - 1) * m.c, m.length * m.c)
                &&& seen1::<T, S, LD>(self.load, next.skip(m.c as int)) == state_after::<
                    S,
                    Gates7<X>,
                    O,
                    ST,
                >(
                    self.step,
                    self.mixed(now, sx, v_first).gates,
                    seen1::<T, S, LD>(self.load, state.skip(m.c as int)),
                    self.zero_state,
                    new_starts,
                    m.length as nat,
                )
            }),
    {
        let (now, sx) = self.shifts(x, state, new_starts);
        self.saved_is_loaded(self.mixed(now, sx, v_first).gates, x, state, new_starts);
    }

    /// The rate of the removal at an element.
    pub open spec fn rate_at(
        &self,
        x: X,
        sx: X,
        t: int,
        c: int,
        at: spec_fn(X, int, int) -> real,
        fns: Functions,
        chan: spec_fn(C, int) -> real,
    ) -> real {
        let p = self.model;
        (fns.sigmoid)(
            chan(p.a0, c) + at(
                self.network(p.a1, p.a2, self.blended(x, sx, self.row(p.x_a))),
                t,
                c,
            ),
        )
    }

    /// The gates of the removal are opposite: at every element the second is the first times the
    /// rate, with the other sign; and the first points against the scaled keys, with norm one in
    /// each head.
    pub proof fn removal_gates_are_opposite(
        &self,
        x: X,
        sx: X,
        v_first: X,
        t: int,
        h: int,
        at: spec_fn(X, int, int) -> real,
        fns: Functions,
        chan: spec_fn(C, int) -> real,
        num: spec_fn(T) -> real,
    )
        requires
            self.exact(at, fns, chan, num),
            self.shape.valid(),
            0 <= h < self.shape.h,
            0 < self.shape.s,
        ensures
            ({
                let m = self.shape;
                let p = self.model;
                let gates = self.mixed(x, sx, v_first).gates;
                let keys = self.layer(p.key, self.blended(x, sx, self.row(p.x_k)));
                let scaled = |d: int| at(keys, t, d) * chan(p.k_k, d);
                let squares = Seq::new(
                    m.s as nat,
                    |l: int| scaled(h * m.s + l) * scaled(h * m.s + l),
                );
                &&& forall|c: int| #[trigger]
                    at(gates.b, t, c) == -(at(gates.a, t, c) * self.rate_at(
                        x,
                        sx,
                        t,
                        c,
                        at,
                        fns,
                        chan,
                    ))
                &&& forall|l: int, k: int|
                    0 <= l < m.s && 0 <= k < m.s ==> #[trigger] at(gates.a, t, h * m.s + l)
                        * scaled(h * m.s + k) == #[trigger] at(gates.a, t, h * m.s + k) * scaled(
                        h * m.s + l,
                    )
                &&& real_sum(squares) != 0real ==> head_square(at, gates.a, t, h, m.s as nat)
                    == 1real
            }),
    {
        let m = self.shape;
        let p = self.model;
        let gates = self.mixed(x, sx, v_first).gates;
        let keys = self.layer(p.key, self.blended(x, sx, self.row(p.x_k)));
        let raw = self.bi(Binary::Mul, keys, self.row(p.k_k));
        let kk = self.heads(PerHead::Unit, raw);
        let scaled = |d: int| at(keys, t, d) * chan(p.k_k, d);
        assert forall|c: int| #[trigger] at(gates.b, t, c) == -(at(gates.a, t, c) * self.rate_at(
            x,
            sx,
            t,
            c,
            at,
            fns,
            chan,
        )) by {
            let (u, r) = (at(kk, t, c), self.rate_at(x, sx, t, c, at, fns, chan));
            assert(at(gates.a, t, c) == -u);
            assert(at(gates.b, t, c) == u * r);
            assert(u * r == -((-u) * r)) by (nonlinear_arith);
        }
        assert forall|l: int, k: int| 0 <= l < m.s && 0 <= k < m.s implies #[trigger] at(
            gates.a,
            t,
            h * m.s + l,
        ) * scaled(h * m.s + k) == #[trigger] at(gates.a, t, h * m.s + k) * scaled(h * m.s + l) by {
            let (c, d) = (h * m.s + l, h * m.s + k);
            element_within(h, l, m.h as int, m.s as int);
            element_within(h, k, m.h as int, m.s as int);
            vstd::arithmetic::div_mod::lemma_fundamental_div_mod_converse(c, m.s as int, h, l);
            vstd::arithmetic::div_mod::lemma_fundamental_div_mod_converse(d, m.s as int, h, k);
            let (u, w) = (at(kk, t, c), at(kk, t, d));
            assert(at(raw, t, c) == scaled(c) && at(raw, t, d) == scaled(d));
            assert(at(kk, t, c) * at(raw, t, d) == at(kk, t, d) * at(raw, t, c));
            let (a, b) = (scaled(c), scaled(d));
            assert((-u) * b == (-w) * a) by (nonlinear_arith)
                requires
                    u * b == w * a,
            ;
        }
        let squares = Seq::new(m.s as nat, |l: int| scaled(h * m.s + l) * scaled(h * m.s + l));
        assert(head_of(at, raw, t, h, m.s as nat).map_values(|v: real| v * v) =~= squares);
        let (ua, uk) = (
            head_of(at, gates.a, t, h, m.s as nat).map_values(|v: real| v * v),
            head_of(at, kk, t, h, m.s as nat).map_values(|v: real| v * v),
        );
        assert forall|l: int| 0 <= l < m.s implies #[trigger] ua[l] == uk[l] by {
            let u = at(kk, t, h * m.s + l);
            assert((-u) * (-u) == u * u) by (nonlinear_arith);
        }
        assert(ua =~= uk);
        assert(head_square(at, kk, t, h, m.s as nat) == real_sum(uk));
    }

    /// A full removal removes: where a step keeps the whole state, adds no values and removes at
    /// rate one, nothing of the state is left in the direction of the unit key. A row of the next
    /// state of a head is the row, times the kept shares `w`, plus its value times the keys, plus
    /// its product with `a`, times `b`.
    pub proof fn full_removal_leaves_nothing(
        &self,
        x: X,
        sx: X,
        v_first: X,
        t: usize,
        h: int,
        i: int,
        state: S,
        at: spec_fn(X, int, int) -> real,
        fns: Functions,
        chan: spec_fn(C, int) -> real,
        num: spec_fn(T) -> real,
        element: spec_fn(S, int, int, int) -> real,
    )
        requires
            self.exact(at, fns, chan, num),
            self.shape.valid(),
            0 <= h < self.shape.h,
            0 < self.shape.s,
            ({
                let m = self.shape;
                let gates = self.mixed(x, sx, v_first).gates;
                let next = value3::<S, Gates7<X>, usize, (S, O), ST>(
                    self.step,
                    state,
                    gates,
                    t,
                ).0;
                let removed = real_sum(
                    Seq::new(
                        m.s as nat,
                        |l: int|
                            element(state, h, i, l) * at(gates.a, t as int, h * m.s + l),
                    ),
                );
                &&& forall|j: int|
                    0 <= j < m.s ==> #[trigger] element(next, h, i, j) == element(state, h, i, j)
                        * at(gates.w, t as int, h * m.s + j) + at(gates.v, t as int, h * m.s + i)
                        * at(gates.k, t as int, h * m.s + j) + removed * at(
                        gates.b,
                        t as int,
                        h * m.s + j,
                    )
                &&& at(gates.v, t as int, h * m.s + i) == 0real
                &&& head_square(at, gates.a, t as int, h, m.s as nat) == 1real
                &&& forall|j: int|
                    0 <= j < m.s ==> #[trigger] at(gates.w, t as int, h * m.s + j) == 1real
                &&& forall|j: int|
                    0 <= j < m.s ==> #[trigger] self.rate_at(
                        x,
                        sx,
                        t as int,
                        h * m.s + j,
                        at,
                        fns,
                        chan,
                    ) == 1real
            }),
        ensures
            ({
                let m = self.shape;
                let gates = self.mixed(x, sx, v_first).gates;
                let next = value3::<S, Gates7<X>, usize, (S, O), ST>(
                    self.step,
                    state,
                    gates,
                    t,
                ).0;
                real_sum(
                    Seq::new(
                        m.s as nat,
                        |j: int| element(next, h, i, j) * at(gates.a, t as int, h * m.s + j),
                    ),
                ) == 0real
            }),
    {
        let m = self.shape;
        let tt = t as int;
        let gates = self.mixed(x, sx, v_first).gates;
        let next = value3::<S, Gates7<X>, usize, (S, O), ST>(self.step, state, gates, t).0;
        let old_part = Seq::new(
            m.s as nat,
            |l: int| element(state, h, i, l) * at(gates.a, tt, h * m.s + l),
        );
        let removed = real_sum(old_part);
        let squares = head_of(at, gates.a, tt, h, m.s as nat).map_values(|v: real| v * v);
        let gone = Seq::new(m.s as nat, |j: int| (-removed) * squares[j]);
        let new_part = Seq::new(
            m.s as nat,
            |j: int| element(next, h, i, j) * at(gates.a, tt, h * m.s + j),
        );
        self.removal_gates_are_opposite(x, sx, v_first, tt, h, at, fns, chan, num);
        assert forall|j: int| 0 <= j < m.s implies #[trigger] new_part[j] == old_part[j]
            + gone[j] by {
            let c = h * m.s + j;
            let (s, a) = (element(state, h, i, j), at(gates.a, tt, c));
            assert(self.rate_at(x, sx, tt, c, at, fns, chan) == 1real);
            assert(at(gates.w, tt, h * m.s + j) == 1real);
            assert(at(gates.b, tt, c) == -(a * 1real));
            let (k, b) = (at(gates.k, tt, c), at(gates.b, tt, c));
            let n = element(next, h, i, j);
            assert(n == s * 1real + 0real * k + removed * b);
            assert(n * a == s * a + (-removed) * (a * a)) by (nonlinear_arith)
                requires
                    n == s * 1real + 0real * k + removed * b,
                    b == -(a * 1real),
            ;
        }
        sum_of_multiples(squares, -removed, gone);
        sum_of_sums(old_part, gone, new_part);
        times_one(-removed);
    }

    /// The gates by element: the receptance is that of its layer; the share that is kept is
    /// `exp(-exp(-softplus(-y) - 1/2))` of what the decay network and its bias give; keys are
    /// scaled by one plus their share of the rate minus one; the values of the first layer are its
    /// own, those of another one go the share of the blend network towards the first values.
    pub proof fn gates_by_element(
        &self,
        x: X,
        sx: X,
        v_first: X,
        t: int,
        c: int,
        at: spec_fn(X, int, int) -> real,
        fns: Functions,
        chan: spec_fn(C, int) -> real,
        num: spec_fn(T) -> real,
    )
        requires
            self.exact(at, fns, chan, num),
        ensures
            ({
                let p = self.model;
                let mx = self.mixed(x, sx, v_first);
                let input = |strength: C| self.blended(x, sx, self.row(strength));
                let rate = self.rate_at(x, sx, t, c, at, fns, chan);
                let y = chan(p.w0, c) + at(self.network(p.w1, p.w2, input(p.x_w)), t, c);
                let key = at(value2::<L, X, X, LI>(self.linear, p.key, input(p.x_k)), t, c);
                let own = value2::<L, X, X, LI>(self.linear, p.value, input(p.x_v));
                let share = (fns.sigmoid)(
                    chan(p.v0, c) + at(self.network(p.v1, p.v2, input(p.x_v)), t, c),
                );
                &&& mx.gates.r == value2::<L, X, X, LI>(self.linear, p.receptance, input(p.x_r))
                &&& at(mx.gates.w, t, c) == (fns.exp)(
                    -(fns.exp)(-(fns.softplus)(-y) - 1real / 2real),
                )
                &&& at(mx.gates.k, t, c) == key * (1real + chan(p.k_a, c) * (rate - 1real))
                &&& self.layer_id == 0 ==> mx.gates.v == own && mx.v_first == own
                &&& self.layer_id != 0 ==> mx.v_first == v_first && at(mx.gates.v, t, c) == at(
                    own,
                    t,
                    c,
                ) + share * (at(v_first, t, c) - at(own, t, c))
                &&& mx.g == value2::<Q, X, X, LO>(
                    self.low,
                    p.g2,
                    value2::<Unary, X, X, UN>(
                        self.unary,
                        Unary::Sigmoid,
                        value2::<Q, X, X, LO>(self.low, p.g1, input(p.x_g)),
                    ),
                )
            }),
    {
        let p = self.model;
        let mx = self.mixed(x, sx, v_first);
        let rate = self.rate_at(x, sx, t, c, at, fns, chan);
        let key = at(self.layer(p.key, self.blended(x, sx, self.row(p.x_k))), t, c);
        let ka = chan(p.k_a, c);
        assert(at(mx.gates.k, t, c) == key * (ka * (rate - 1real) + 1real));
        let xv = self.blended(x, sx, self.row(p.x_v));
        let own = self.layer(p.value, xv);
        if self.layer_id != 0 {
            let share = (fns.sigmoid)(chan(p.v0, c) + at(self.network(p.v1, p.v2, xv), t, c));
            let (o, f) = (at(own, t, c), at(v_first, t, c));
            assert(at(mx.gates.v, t, c) == o + (f - o) * share);
            assert((f - o) * share == share * (f - o)) by (nonlinear_arith);
        }
    }

    /// What is kept is a share: with functions that grow as they should, the share of the state
    /// that is kept lies between `exp(-exp(-1/2))` and one, keys move with their rate where they
    /// are scaled by it in full and stay where not at all, and the values of a layer but the first
    /// lie between its own and the first values.
    pub proof fn gates_keep_their_bounds(
        &self,
        x: X,
        sx: X,
        v_first: X,
        t: int,
        c: int,
        at: spec_fn(X, int, int) -> real,
        fns: Functions,
        chan: spec_fn(C, int) -> real,
        num: spec_fn(T) -> real,
    )
        requires
            self.exact(at, fns, chan, num),
            fns.grows(),
        ensures
            ({
                let p = self.model;
                let mx = self.mixed(x, sx, v_first);
                let input = |strength: C| self.blended(x, sx, self.row(strength));
                let rate = self.rate_at(x, sx, t, c, at, fns, chan);
                let key = at(value2::<L, X, X, LI>(self.linear, p.key, input(p.x_k)), t, c);
                let own = at(value2::<L, X, X, LI>(self.linear, p.value, input(p.x_v)), t, c);
                let (v, first) = (at(mx.gates.v, t, c), at(v_first, t, c));
                &&& 0real < rate < 1real
                &&& (fns.exp)(-(fns.exp)(-(1real / 2real))) < at(mx.gates.w, t, c) < 1real
                &&& chan(p.k_a, c) == 0real ==> at(mx.gates.k, t, c) == key
                &&& chan(p.k_a, c) == 1real ==> at(mx.gates.k, t, c) == key * rate
                &&& self.layer_id != 0 && own < first ==> own < v < first
                &&& self.layer_id != 0 && first < own ==> first < v < own
                &&& self.layer_id != 0 && first == own ==> v == own
            }),
    {
        let p = self.model;
        self.gates_by_element(x, sx, v_first, t, c, at, fns, chan, num);
        let mx = self.mixed(x, sx, v_first);
        let rate = self.rate_at(x, sx, t, c, at, fns, chan);
        let xw = self.blended(x, sx, self.row(p.x_w));
        let y = chan(p.w0, c) + at(self.network(p.w1, p.w2, xw), t, c);
        let half = 1real / 2real;
        let e = -(fns.softplus)(-y) - half;
        assert((fns.softplus)(-y) > 0real);
        assert(e < -half);
        let (a, b) = ((fns.exp)(e), (fns.exp)(-half));
        assert(a < b && a > 0real);
        assert((fns.exp)(-b) < (fns.exp)(-a));
        assert((fns.exp)(-a) < (fns.exp)(0real));
        let key = at(self.layer(p.key, self.blended(x, sx, self.row(p.x_k))), t, c);
        let ka = chan(p.k_a, c);
        if ka == 0real {
            assert(key * (1real + ka * (rate - 1real)) == key) by (nonlinear_arith)
                requires
                    ka == 0real,
            ;
        }
        if ka == 1real {
            assert(key * (1real + ka * (rate - 1real)) == key * rate) by (nonlinear_arith)
                requires
                    ka == 1real,
            ;
        }
        if self.layer_id != 0 {
            let xv = self.blended(x, sx, self.row(p.x_v));
            let share = (fns.sigmoid)(chan(p.v0, c) + at(self.network(p.v1, p.v2, xv), t, c));
            assert(0real < share < 1real);
            let own = at(self.layer(p.value, xv), t, c);
            let first = at(v_first, t, c);
            let v = own + share * (first - own);
            assert(own < first ==> own < v < first) by (nonlinear_arith)
                requires
                    v == own + share * (first - own),
                    0real < share < 1real,
            ;
            assert(first < own ==> first < v < own) by (nonlinear_arith)
                requires
                    v == own + share * (first - own),
                    0real < share < 1real,
            ;
            assert(first == own ==> v == own) by (nonlinear_arith)
                requires
                    v == own + share * (first - own),
            ;
        }
    }

    /// Whether two passes differ in their weights alone.
    pub open spec fn same_but_weights(&self, other: &Self) -> bool {
        &&& self.layer_id == other.layer_id
        &&& self.shape == other.shape
        &&& self.channel == other.channel
        &&& self.linear == other.linear
        &&& self.low == other.low
        &&& self.unary == other.unary
        &&& self.binary == other.binary
        &&& self.per_head == other.per_head
        &&& self.norm == other.norm
    }

    /// Each gate has weights of its own: two mixers that agree in the weights of a gate agree in
    /// that gate, whatever their other weights are.
    pub proof fn gates_have_their_own_weights(&self, other: &Self, x: X, sx: X, v_first: X)
        requires
            self.same_but_weights(other),
        ensures
            ({
                let (p, q) = (self.model, other.model);
                let (a, b) = (self.mixed(x, sx, v_first), other.mixed(x, sx, v_first));
                let rates = p.x_a == q.x_a && p.a0 == q.a0 && p.a1 == q.a1 && p.a2 == q.a2;
                let keys = p.x_k == q.x_k && p.key == q.key;
                &&& p.x_r == q.x_r && p.receptance == q.receptance ==> a.gates.r == b.gates.r
                &&& p.x_w == q.x_w && p.w0 == q.w0 && p.w1 == q.w1 && p.w2 == q.w2 ==> a.gates.w
                    == b.gates.w
                &&& keys && rates && p.k_a == q.k_a ==> a.gates.k == b.gates.k
                &&& keys && p.k_k == q.k_k ==> a.gates.a == b.gates.a
                &&& keys && rates && p.k_k == q.k_k ==> a.gates.b == b.gates.b
                &&& p.x_v == q.x_v && p.value == q.value && (self.layer_id == 0 || (p.v0 == q.v0
                    && p.v1 == q.v1 && p.v2 == q.v2)) ==> a.gates.v == b.gates.v && a.v_first
                    == b.v_first
                &&& p.x_g == q.x_g && p.g1 == q.g1 && p.g2 == q.g2 ==> a.g == b.g
            }),
    {
    }

    /// Every output of the recurrence is read: the mixed rows are what the readout makes of the
    /// outputs of all steps, stacked in order. The recurrence runs over the gates of the rows from
    /// the state behind the carried row, and forgets the state where a new sequence starts.
    pub proof fn outputs_are_read(
        &self,
        x: Seq<T>,
        state: Seq<T>,
        v_first: X,
        new_starts: Seq<bool>,
        outs: Seq<O>,
        states: Seq<S>,
    )
        requires
            self.shape.valid(),
            new_starts.len() == self.shape.t,
            outs.len() == self.shape.t,
            states.len() == self.shape.t + 1,
            states[0] == seen1::<T, S, LD>(self.load, state.skip(self.shape.c as int)),
            forall|t: int|
                0 <= t < outs.len() ==> (states[t + 1], #[trigger] outs[t]) == ({
                    let (now, sx) = self.shifts(x, state, new_starts);
                    value3::<S, Gates7<X>, usize, (S, O), ST>(
                        self.step,
                        if new_starts[t] {
                            self.zero_state
                        } else {
                            states[t]
                        },
                        self.mixed(now, sx, v_first).gates,
                        t as usize,
                    )
                }),
        ensures
            ({
                let (now, sx) = self.shifts(x, state, new_starts);
                let r = self.result(x, state, v_first, new_starts);
                &&& r.0 == self.read(
                    self.mixed(now, sx, v_first),
                    seen1::<O, X, SK>(self.stack, outs),
                )
                &&& r.1 == x.subrange(
                    (self.shape.length - 1) * self.shape.c,
                    self.shape.length * self.shape.c,
                ) + listed1::<S, T, SV>(self.save, states[self.shape.length as int])
            }),
    {
        let (now, sx) = self.shifts(x, state, new_starts);
        let gates = self.mixed(now, sx, v_first).gates;
        steps_are_the_scan::<S, Gates7<X>, O, ST>(
            self.step,
            gates,
            self.zero_state,
            new_starts,
            outs,
            states,
            self.shape.t as nat,
        );
        steps_are_the_scan::<S, Gates7<X>, O, ST>(
            self.step,
            gates,
            self.zero_state,
            new_starts,
            outs,
            states,
            self.shape.length as nat,
        );
        assert(outs.take(self.shape.t as int) =~= outs);
    }

    /// The readout by element: what the output layer gets is the normalised output of the
    /// recurrence plus, for each head, the sum of receptance times key times weight, times the
    /// value; all of it times the output weights.
    pub proof fn readout_by_element(
        &self,
        mx: Mixed7<X>,
        out: X,
        at: spec_fn(X, int, int) -> real,
        fns: Functions,
        chan: spec_fn(C, int) -> real,
        num: spec_fn(T) -> real,
    )
        requires
            self.exact(at, fns, chan, num),
        ensures
            exists|y: X|
                {
                    &&& self.read(mx, out) == #[trigger] value2::<L, X, X, LI>(
                        self.linear,
                        self.model.output,
                        y,
                    )
                    &&& forall|t: int, c: int| #[trigger]
                        at(y, t, c) == (at(
                            value3::<M, X, usize, X, NO>(
                                self.norm,
                                self.model.ln_x,
                                out,
                                self.shape.h,
                            ),
                            t,
                            c,
                        ) + real_sum(
                            Seq::new(
                                self.shape.s as nat,
                                |l: int|
                                    {
                                        let d = c / (self.shape.s as int) * self.shape.s + l;
                                        at(mx.gates.r, t, d) * at(mx.gates.k, t, d) * chan(
                                            self.model.r_k,
                                            d,
                                        )
                                    },
                            ),
                        ) * at(mx.gates.v, t, c)) * at(mx.g, t, c)
                },
    {
        let p = self.model;
        let normed = value3::<M, X, usize, X, NO>(self.norm, p.ln_x, out, self.shape.h);
        let rk = self.bi(
            Binary::Mul,
            self.bi(Binary::Mul, mx.gates.r, mx.gates.k),
            self.row(p.r_k),
        );
        let direct = self.bi(Binary::Mul, self.heads(PerHead::Spread, rk), mx.gates.v);
        let y = self.bi(Binary::Mul, self.bi(Binary::Add, normed, direct), mx.g);
        assert(self.read(mx, out) == value2::<L, X, X, LI>(self.linear, p.output, y));
        assert forall|t: int, c: int| #[trigger] at(y, t, c) == (at(normed, t, c) + real_sum(
            Seq::new(
                self.shape.s as nat,
                |l: int|
                    {
                        let d = c / (self.shape.s as int) * self.shape.s + l;
                        at(mx.gates.r, t, d) * at(mx.gates.k, t, d) * chan(p.r_k, d)
                    },
            ),
        ) * at(mx.gates.v, t, c)) * at(mx.g, t, c) by {
            let h = c / (self.shape.s as int);
            assert(head_of(at, rk, t, h, self.shape.s as nat) =~= Seq::new(
                self.shape.s as nat,
                |l: int|
                    {
                        let d = h * self.shape.s + l;
                        at(mx.gates.r, t, d) * at(mx.gates.k, t, d) * chan(p.r_k, d)
                    },
            ));
        }
    }
}

// ---------------------------------------------------------------------------
// Attention by the sixth recurrence
// ---------------------------------------------------------------------------
impl<
    'a,
    T: Copy,
    C,
    L,
    Q,
    X,
    S,
    O,
    RW,
    CH,
    LI,
    LO,
    UN,
    BI,
    PH,
    LD,
    ST,
    CS,
    SV,
    SK,
    PA,
    RE,
> AttentionPass<
    'a,
    T,
    C,
    L,
    Q,
    S,
    RW,
    CH,
    LI,
    LO,
    UN,
    BI,
    PH,
    LD,
    ST,
    CS,
    SV,
    SK,
    PA,
    RE,
> where
    RW: Fn(&Vec<T>) -> X,
    CH: Fn(&C) -> X,
    LI: Fn(&L, &X) -> X,
    LO: Fn(&Q, &X) -> X,
    UN: Fn(&Unary, &X) -> X,
    BI: Fn(&Binary, &X, &X) -> X,
    PH: Fn(&PerHead, &X, &MixerShape) -> X,
    LD: Fn(&Vec<T>) -> S,
    ST: Fn(&S, &Gates6<X>, &usize) -> (S, O),
    CS: Fn(&S) -> S,
    SV: Fn(&S) -> Vec<T>,
    SK: Fn(&Vec<O>) -> X,
    PA: Fn(&X, &usize) -> X,
    RE: Fn(&X, &usize) -> X,
 {
    /// Whether the arithmetic is exact, `at` giving the elements of rows.
    pub open spec fn exact(
        &self,
        at: spec_fn(X, int, int) -> real,
        fns: Functions,
        chan: spec_fn(C, int) -> real,
        num: spec_fn(T) -> real,
    ) -> bool {
        &&& unary_exact::<X, UN>(self.unary, at, fns)
        &&& binary_exact::<X, BI>(self.binary, at)
        &&& channel_exact::<C, X, CH>(self.channel, at, chan)
        &&& rows_exact::<T, X, RW>(self.rows, at, num, self.shape)
        &&& per_head_exact::<X, PH>(self.per_head, at, self.shape)
    }

    /// Mixing strengths choose between rows: rows mixed with strength zero are the rows, with
    /// strength one the rows before them, and in between the share of the way that the strength
    /// says. The row before the first is the carried one, and none stands before a row that starts
    /// a new sequence.
    pub proof fn strengths_choose_the_row(
        &self,
        x: Seq<T>,
        state: Seq<T>,
        new_starts: Seq<bool>,
        strength: C,
        t: int,
        c: int,
        at: spec_fn(X, int, int) -> real,
        fns: Functions,
        chan: spec_fn(C, int) -> real,
        num: spec_fn(T) -> real,
    )
        requires
            self.exact(at, fns, chan, num),
            fit(self.shape, x, state, new_starts),
            num(self.zero) == 0real,
            x.len() <= usize::MAX,
            held(x),
            held(shifted_rows(self.shape, x, state, new_starts, self.zero)),
            0 <= t < self.shape.t,
            0 <= c < self.shape.c,
        ensures
            ({
                let (now, sx) = self.shifts(x, state, new_starts);
                let here = num(x[t * self.shape.c + c]);
                let before = number_before(self.shape, x, state, new_starts, t, c, num);
                &&& at(now, t, c) == here
                &&& at(self.blended(now, sx, self.row(strength)), t, c) == here + chan(strength, c)
                    * (before - here)
            }),
    {
        let w = self.shape.c as int;
        let list = shifted_rows(self.shape, x, state, new_starts, self.zero);
        element_within(t, c, self.shape.t as int, w);
        vstd::arithmetic::div_mod::lemma_fundamental_div_mod_converse(t * w + c, w, t, c);
        assert(list_of(x)@ == x);
        assert(list_of(list)@ == list);
        let (now, before) = (seen1::<T, X, RW>(self.rows, x), seen1::<T, X, RW>(self.rows, list));
        assert(at(now, t, c) == num(x[t * w + c]));
        assert(at(before, t, c) == num(list[t * w + c]));
        if t == 0 {
            assert(0 * w == 0);
        } else {
            assert((t - 1) * w == t * w - w) by (nonlinear_arith);
            assert(t * w >= w) by (nonlinear_arith)
                requires
                    t >= 1,
                    w >= 0,
            ;
        }
        let (h, b, s) = (at(now, t, c), at(before, t, c), chan(strength, c));
        let sx = self.bi(Binary::Sub, before, now);
        let part = self.bi(Binary::Mul, sx, self.row(strength));
        assert(at(sx, t, c) == b - h);
        assert(at(part, t, c) == (b - h) * s);
        assert((b - h) * s == s * (b - h)) by (nonlinear_arith);
    }

    /// Networks are odd: where weights act linearly and the bend is odd, opposite inputs have
    /// opposite outputs.
    pub proof fn networks_are_odd(
        &self,
        p: Q,
        q: Q,
        x: X,
        minus: spec_fn(X) -> X,
    )
        requires
            forall|w: Q, y: X| #[trigger]
                value2::<Q, X, X, LO>(self.low, w, minus(y)) == minus(
                    value2::<Q, X, X, LO>(self.low, w, y),
                ),
            forall|y: X| #[trigger]
                value2::<Unary, X, X, UN>(self.unary, Unary::Tanh, minus(y)) == minus(
                    value2::<Unary, X, X, UN>(self.unary, Unary::Tanh, y),
                ),
        ensures
            self.network(p, q, minus(x)) == minus(self.network(p, q, x)),
    {
    }

    /// What a call saves the next one loads: where loading undoes saving, the state that a call
    /// gives carries the last counting row of its input, and the state of the recurrence behind
    /// that row.
    proof fn saved_is_loaded(
        &self,
        gates: Gates6<X>,
        x: Seq<T>,
        state: Seq<T>,
        new_starts: Seq<bool>,
    )
        requires
            fit(self.shape, x, state, new_starts),
            forall|s: S| #[trigger]
                seen1::<T, S, LD>(self.load, listed1::<S, T, SV>(self.save, s)) == s,
        ensures
            ({
                let m = self.shape;
                let next = last_row(m, x) + self.scanned(gates, state, new_starts).1;
                &&& next.take(m.c as int) == x.subrange((m.length - 1) * m.c, m.length * m.c)
                &&& seen1::<T, S, LD>(self.load, next.skip(m.c as int)) == state_after::<
                    S,
                    Gates6<X>,
                    O,
                    ST,
                >(
                    self.step,
                    gates,
                    seen1::<T, S, LD>(self.load, state.skip(m.c as int)),
                    self.zero_state,
                    new_starts,
                    m.length as nat,
                )
            }),
    {
        let m = self.shape;
        let saved = self.scanned(gates, state, new_starts).1;
        let row = last_row(m, x);
        assert((m.length - 1) * m.c >= 0 && m.length * m.c <= m.t * m.c && m.length * m.c == (
        m.length - 1) * m.c + m.c) by (nonlinear_arith)
            requires
                0 < m.length <= m.t,
                0 < m.c,
        ;
        assert((row + saved).take(m.c as int) =~= row);
        assert((row + saved).skip(m.c as int) =~= saved);
    }

    /// What a call gives carries over: the state behind a call loads as the state of its recurrence
    /// behind the last counting row, in front of which that row stands.
    pub proof fn state_carries_over(&self, x: Seq<T>, state: Seq<T>, new_starts: Seq<bool>)
        requires
            fit(self.shape, x, state, new_starts),
            forall|s: S| #[trigger]
                seen1::<T, S, LD>(self.load, listed1::<S, T, SV>(self.save, s)) == s,
        ensures
            ({
                let m = self.shape;
                let next = self.result(x, state, new_starts).1;
                let (now, sx) = self.shifts(x, state, new_starts);
                &&& next.take(m.c as int) == x.subrange((m.length - 1) * m.c, m.length * m.c)
                &&& seen1::<T, S, LD>(self.load, next.skip(m.c as int)) == state_after::<
                    S,
                    Gates6<X>,
                    O,
                    ST,
                >(
                    self.step,
                    self.mixed(now, sx).gates,
                    seen1::<T, S, LD>(self.load, state.skip(m.c as int)),
                    self.zero_state,
                    new_starts,
                    m.length as nat,
                )
            }),
    {
        let (now, sx) = self.shifts(x, state, new_starts);
        self.saved_is_loaded(self.mixed(now, sx).gates, x, state, new_starts);
    }

    /// The hidden layer of the network of the strengths.
    pub open spec fn hidden(&self, x: X, sx: X) -> X {
        value2::<Unary, X, X, UN>(
            self.unary,
            Unary::Tanh,
            value2::<Q, X, X, LO>(
                self.low,
                self.model.time_maa_w1,
                self.blended(x, sx, self.row(self.model.time_maa_x)),
            ),
        )
    }

    /// Whether rows are mixed with their shift by a strength plus what part `i` of the network of
    /// the strengths adds to it.
    pub open spec fn is_input(
        &self,
        y: X,
        x: X,
        sx: X,
        strength: C,
        i: usize,
        at: spec_fn(X, int, int) -> real,
        chan: spec_fn(C, int) -> real,
    ) -> bool {
        let added = value2::<Q, X, X, LO>(
            self.low,
            self.model.time_maa_w2,
            value2::<X, usize, X, PA>(self.part, self.hidden(x, sx), i),
        );
        forall|t: int, c: int| #[trigger]
            at(y, t, c) == at(x, t, c) + at(sx, t, c) * (chan(strength, c) + at(added, t, c))
    }

    /// The gates by element: receptance, keys, values, decay and output weights come of rows mixed
    /// by strengths of their own, parts zero to four of one network. What is kept is
    /// `exp(max(-exp(y), -5))` of the decay, keys are scaled by what is not kept, and receptances
    /// are divided by the root of the size of a head.
    pub proof fn gates_by_element(
        &self,
        x: X,
        sx: X,
        at: spec_fn(X, int, int) -> real,
        fns: Functions,
        chan: spec_fn(C, int) -> real,
        num: spec_fn(T) -> real,
    )
        requires
            self.exact(at, fns, chan, num),
            self.shape.valid(),
            0 < self.shape.c,
        ensures
            ({
                let p = self.model;
                let mx = self.mixed(x, sx);
                let layer = |l: L, y: X| value2::<L, X, X, LI>(self.linear, l, y);
                exists|xr: X, xk: X, xv: X, xw: X, xg: X|
                {
                    let decay = value2::<Q, X, X, LO>(
                        self.low,
                        p.time_decay_w2,
                        value2::<Unary, X, X, UN>(
                            self.unary,
                            Unary::Tanh,
                            value2::<Q, X, X, LO>(self.low, p.time_decay_w1, xw),
                        ),
                    );
                    &&& #[trigger] self.is_input(xr, x, sx, p.time_maa_r, 0, at, chan)
                    &&& #[trigger] self.is_input(xk, x, sx, p.time_maa_k, 1, at, chan)
                    &&& #[trigger] self.is_input(xv, x, sx, p.time_maa_v, 2, at, chan)
                    &&& #[trigger] self.is_input(xw, x, sx, p.time_maa_w, 3, at, chan)
                    &&& #[trigger] self.is_input(xg, x, sx, p.time_maa_g, 4, at, chan)
                    &&& mx.gates.v == layer(p.v_proj, xv)
                    &&& forall|t: int, c: int| #[trigger]
                        at(mx.gates.w, t, c) == (fns.exp)(
                            at_least_minus_five(
                                -(fns.exp)(chan(p.time_decay, c) + at(decay, t, c)),
                            ),
                        )
                    &&& forall|t: int, c: int| #[trigger]
                        at(mx.gates.k, t, c) == at(layer(p.k_proj, xk), t, c) * (1real - at(
                            mx.gates.w,
                            t,
                            c,
                        ))
                    &&& forall|t: int, c: int| #[trigger]
                        at(mx.gates.r, t, c) * at(mx.gates.r, t, c) * (self.shape.s as real) == at(
                            layer(p.q_proj, xr),
                            t,
                            c,
                        ) * at(layer(p.q_proj, xr), t, c)
                    &&& forall|t: int, c: int| #[trigger]
                        at(mx.gates.r, t, c) * at(layer(p.q_proj, xr), t, c) >= 0real
                    &&& forall|t: int, c: int| #[trigger]
                        at(mx.g, t, c) == (fns.sigmoid)(at(layer(p.gate, xg), t, c))
                }
            }),
    {
        let p = self.model;
        let mx = self.mixed(x, sx);
        let hidden = self.un(
            Unary::Tanh,
            self.times(p.time_maa_w1, self.blended(x, sx, self.row(p.time_maa_x))),
        );
        let (xr, xk) = (
            self.input(x, sx, hidden, p.time_maa_r, 0),
            self.input(x, sx, hidden, p.time_maa_k, 1),
        );
        let (xv, xw) = (
            self.input(x, sx, hidden, p.time_maa_v, 2),
            self.input(x, sx, hidden, p.time_maa_w, 3),
        );
        let xg = self.input(x, sx, hidden, p.time_maa_g, 4);
        assert(self.is_input(xr, x, sx, p.time_maa_r, 0, at, chan));
        assert(self.is_input(xk, x, sx, p.time_maa_k, 1, at, chan));
        assert(self.is_input(xv, x, sx, p.time_maa_v, 2, at, chan));
        assert(self.is_input(xw, x, sx, p.time_maa_w, 3, at, chan));
        assert(self.is_input(xg, x, sx, p.time_maa_g, 4, at, chan));
        let m = self.shape;
        assert(0 < m.s && 0 < m.h) by (nonlinear_arith)
            requires
                0 < m.c,
                m.c == m.h * m.s,
                0 <= m.s,
                0 <= m.h,
        ;
        vstd::arithmetic::div_mod::lemma_fundamental_div_mod_converse(
            m.c as int,
            m.s as int,
            m.h as int,
            0,
        );
        assert(m.h as int / (m.c as int / m.s as int) == 1) by (nonlinear_arith)
            requires
                m.c as int / m.s as int == m.h,
                0 < m.h,
        ;
        let key = self.layer(p.k_proj, xk);
        assert forall|t: int, c: int| #[trigger] at(mx.gates.k, t, c) == at(key, t, c) * (1real
            - at(mx.gates.w, t, c)) by {
            let (k, w) = (at(key, t, c), at(mx.gates.w, t, c));
            assert(at(mx.gates.k, t, c) == k * (-w + 1real));
        }
    }

    /// What is kept is a share, and the rest is added: with functions that grow as they should,
    /// the share of the state that is kept lies between `exp(-5)` and one.
    pub proof fn what_is_kept_is_a_share(
        &self,
        x: X,
        sx: X,
        t: int,
        c: int,
        at: spec_fn(X, int, int) -> real,
        fns: Functions,
        chan: spec_fn(C, int) -> real,
        num: spec_fn(T) -> real,
    )
        requires
            self.exact(at, fns, chan, num),
            fns.grows(),
            self.shape.valid(),
            0 < self.shape.c,
        ensures
            (fns.exp)(-5real) <= at(self.mixed(x, sx).gates.w, t, c) < 1real,
    {
        self.gates_by_element(x, sx, at, fns, chan, num);
        let w = at(self.mixed(x, sx).gates.w, t, c);
        let b = choose|b: real|
            w == #[trigger] (fns.exp)(b) && -5real <= b < 0real;
        assert(w == (fns.exp)(b) && -5real <= b < 0real);
        assert((fns.exp)(b) < (fns.exp)(0real));
        if b > -5real {
            assert((fns.exp)(-5real) < (fns.exp)(b));
        }
    }

    /// Every output of the recurrence is read: the mixed rows are the outputs of all steps, stacked
    /// in order, weighted and through the output layer. The recurrence runs over the gates of the
    /// rows from the state behind the carried row, and forgets the state where a new sequence
    /// starts.
    pub proof fn outputs_are_read(
        &self,
        x: Seq<T>,
        state: Seq<T>,
        new_starts: Seq<bool>,
        outs: Seq<O>,
        states: Seq<S>,
    )
        requires
            self.shape.valid(),
            new_starts.len() == self.shape.t,
            outs.len() == self.shape.t,
            states.len() == self.shape.t + 1,
            states[0] == seen1::<T, S, LD>(self.load, state.skip(self.shape.c as int)),
            forall|t: int|
                0 <= t < outs.len() ==> (states[t + 1], #[trigger] outs[t]) == ({
                    let (now, sx) = self.shifts(x, state, new_starts);
                    value3::<S, Gates6<X>, usize, (S, O), ST>(
                        self.step,
                        if new_starts[t] {
                            self.zero_state
                        } else {
                            states[t]
                        },
                        self.mixed(now, sx).gates,
                        t as usize,
                    )
                }),
        ensures
            ({
                let (now, sx) = self.shifts(x, state, new_starts);
                let r = self.result(x, state, new_starts);
                &&& r.0 == self.layer(
                    self.model.o_proj,
                    self.bi(
                        Binary::Mul,
                        seen1::<O, X, SK>(self.stack, outs),
                        self.mixed(now, sx).g,
                    ),
                )
                &&& r.1 == x.subrange(
                    (self.shape.length - 1) * self.shape.c,
                    self.shape.length * self.shape.c,
                ) + listed1::<S, T, SV>(self.save, states[self.shape.length as int])
            }),
    {
        let (now, sx) = self.shifts(x, state, new_starts);
        let gates = self.mixed(now, sx).gates;
        steps_are_the_scan::<S, Gates6<X>, O, ST>(
            self.step,
            gates,
            self.zero_state,
            new_starts,
            outs,
            states,
            self.shape.t as nat,
        );
        steps_are_the_scan::<S, Gates6<X>, O, ST>(
            self.step,
            gates,
            self.zero_state,
            new_starts,
            outs,
            states,
            self.shape.length as nat,
        );
        assert(outs.take(self.shape.t as int) =~= outs);
    }

    /// The readout: the output layer gets the outputs of the recurrence times the output weights.
    pub proof fn readout_by_element(
        &self,
        x: Seq<T>,
        state: Seq<T>,
        new_starts: Seq<bool>,
        at: spec_fn(X, int, int) -> real,
        fns: Functions,
        chan: spec_fn(C, int) -> real,
        num: spec_fn(T) -> real,
    )
        requires
            self.exact(at, fns, chan, num),
        ensures
            ({
                let (now, sx) = self.shifts(x, state, new_starts);
                let mx = self.mixed(now, sx);
                let m = self.shape;
                let outs = outputs::<S, Gates6<X>, O, ST>(
                    self.step,
                    mx.gates,
                    seen1::<T, S, LD>(self.load, state.skip(m.c as int)),
                    self.zero_state,
                    new_starts,
                    m.t as nat,
                );
                exists|y: X|
                    {
                        &&& self.result(x, state, new_starts).0 == #[trigger] value2::<L, X, X, LI>(
                            self.linear,
                            self.model.o_proj,
                            y,
                        )
                        &&& forall|t: int, c: int| #[trigger]
                            at(y, t, c) == at(seen1::<O, X, SK>(self.stack, outs), t, c) * at(
                                mx.g,
                                t,
                                c,
                            )
                    }
            }),
    {
        let (now, sx) = self.shifts(x, state, new_starts);
        let mx = self.mixed(now, sx);
        let out = self.scanned(mx.gates, state, new_starts).0;
        let y = self.bi(Binary::Mul, out, mx.g);
        assert(self.result(x, state, new_starts).0 == value2::<L, X, X, LI>(
            self.linear,
            self.model.o_proj,
            y,
        ));
    }
}

// ---------------------------------------------------------------------------
// The channel mixer
// ---------------------------------------------------------------------------
/// Whether `k` holds the squares of the positive elements of `keys`, and nothing elsewhere.
pub open spec fn squares_of_positives<X>(
    at: spec_fn(X, int, int) -> real,
    keys: X,
    k: X,
) -> bool {
    forall|t: int, c: int| #[trigger]
        at(k, t, c) == (if at(keys, t, c) > 0real {
            at(keys, t, c) * at(keys, t, c)
        } else {
            0real
        })
}

impl<'a, T: Copy, C, L, X, RW, CH, LI, UN, BI> ChannelPass<'a, T, C, L, RW, CH, LI, UN, BI> where
    RW: Fn(&Vec<T>) -> X,
    CH: Fn(&C) -> X,
    LI: Fn(&L, &X) -> X,
    UN: Fn(&Unary, &X) -> X,
    BI: Fn(&Binary, &X, &X) -> X,
 {
    /// Channels by element: the key layer gets each row plus the strength times the way to the row
    /// before it, and the value layer gets the squares of the positive keys.
    pub proof fn channels_by_element(
        &self,
        x: Seq<T>,
        state: Seq<T>,
        new_starts: Seq<bool>,
        at: spec_fn(X, int, int) -> real,
        fns: Functions,
        chan: spec_fn(C, int) -> real,
        num: spec_fn(T) -> real,
    )
        requires
            unary_exact::<X, UN>(self.unary, at, fns),
            binary_exact::<X, BI>(self.binary, at),
            channel_exact::<C, X, CH>(self.channel, at, chan),
            rows_exact::<T, X, RW>(self.rows, at, num, self.shape),
            fit(self.shape, x, state, new_starts),
            num(self.zero) == 0real,
            held(x),
            held(shifted_rows(self.shape, x, state, new_starts, self.zero)),
        ensures
            exists|xk: X, k: X|
                {
                    &&& self.mixed(x, state, new_starts) == #[trigger] value2::<L, X, X, LI>(
                        self.linear,
                        self.model.value,
                        k,
                    )
                    &&& squares_of_positives(
                        at,
                        #[trigger] value2::<L, X, X, LI>(self.linear, self.model.key, xk),
                        k,
                    )
                    &&& forall|t: int, c: int|
                        0 <= t < self.shape.t && 0 <= c < self.shape.c ==> #[trigger] at(xk, t, c)
                            == num(x[t * self.shape.c + c]) + chan(self.model.x_k, c) * (
                        number_before(self.shape, x, state, new_starts, t, c, num) - num(
                            x[t * self.shape.c + c],
                        ))
                },
    {
        let w = self.shape.c as int;
        let list = shifted_rows(self.shape, x, state, new_starts, self.zero);
        assert(list_of(x)@ == x);
        assert(list_of(list)@ == list);
        let (now, before) = (seen1::<T, X, RW>(self.rows, x), seen1::<T, X, RW>(self.rows, list));
        let sx = value3::<Binary, X, X, X, BI>(self.binary, Binary::Sub, before, now);
        let part = value3::<Binary, X, X, X, BI>(
            self.binary,
            Binary::Mul,
            sx,
            value1::<C, X, CH>(self.channel, self.model.x_k),
        );
        let xk = value3::<Binary, X, X, X, BI>(self.binary, Binary::Add, now, part);
        let keys = value2::<L, X, X, LI>(self.linear, self.model.key, xk);
        let k = value2::<Unary, X, X, UN>(
            self.unary,
            Unary::Square,
            value2::<Unary, X, X, UN>(self.unary, Unary::Relu, keys),
        );
        assert(self.mixed(x, state, new_starts) == value2::<L, X, X, LI>(
            self.linear,
            self.model.value,
            k,
        ));
        assert forall|t: int, c: int| #[trigger] at(k, t, c) == (if at(keys, t, c) > 0real {
            at(keys, t, c) * at(keys, t, c)
        } else {
            0real
        }) by {
            times_one(0real);
        }
        assert forall|t: int, c: int|
            0 <= t < self.shape.t && 0 <= c < self.shape.c implies #[trigger] at(xk, t, c) == num(
            x[t * self.shape.c + c],
        ) + chan(self.model.x_k, c) * (number_before(self.shape, x, state, new_starts, t, c, num)
            - num(x[t * self.shape.c + c])) by {
            element_within(t, c, self.shape.t as int, w);
            vstd::arithmetic::div_mod::lemma_fundamental_div_mod_converse(t * w + c, w, t, c);
            assert(at(now, t, c) == num(x[t * w + c]));
            assert(at(before, t, c) == num(list[t * w + c]));
            if t == 0 {
                assert(0 * w == 0);
            } else {
                assert((t - 1) * w == t * w - w) by (nonlinear_arith);
                assert(t * w >= w) by (nonlinear_arith)
                    requires
                        t >= 1,
                        w >= 0,
                ;
            }
            let (h, b, s) = (at(now, t, c), at(before, t, c), chan(self.model.x_k, c));
            assert(at(part, t, c) == (b - h) * s);
            assert((b - h) * s == s * (b - h)) by (nonlinear_arith);
        }
    }
}

} // verus!
