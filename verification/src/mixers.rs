//! Recurrent mixers: which weights make the gates of a recurrence, how rows are
//! shifted and carried from call to call, and how the outputs are read.
//!
//! Rows are matrices of a row of channels per time step. The arithmetic on them is
//! handed in, each operation under its name.

use vstd::prelude::*;

use crate::ops::{
    apply1, apply2, apply3, computes1, computes2, computes3, copies, list1, listed1, lists1, reads1,
    see1, seen1, value1, value2, value3,
};
use crate::recurrent::{
    inner_loop, kv_repeats, outputs, shifted, state_after, token_shift, MixerShape,
};
use crate::split::copy_slice;

verus! {

/// An operation on each element.
#[derive(Clone, Copy, Debug, PartialEq, Eq, Structural)]
pub enum Unary {
    /// Hyperbolic tangent.
    Tanh,
    /// Logistic function.
    Sigmoid,
    /// The number, or zero where it is negative.
    Relu,
    /// Square.
    Square,
    /// Exponential.
    Exp,
    /// Negation.
    Neg,
    /// Logarithm of one plus the exponential.
    Softplus,
    /// The number minus one half.
    LessHalf,
    /// The number minus one.
    LessOne,
    /// The number plus one.
    PlusOne,
    /// The number, or minus five where it is below.
    AtLeastMinusFive,
}

/// An operation on each pair of elements.
#[derive(Clone, Copy, Debug, PartialEq, Eq, Structural)]
pub enum Binary {
    /// Sum.
    Add,
    /// Difference.
    Sub,
    /// Product.
    Mul,
}

/// An operation on the channels of each head.
#[derive(Clone, Copy, Debug, PartialEq, Eq, Structural)]
pub enum PerHead {
    /// The channels divided by their norm.
    Unit,
    /// The sum of the channels, at each of them.
    Spread,
    /// The channels over the root of their number.
    Scale,
}

// ---------------------------------------------------------------------------
// Rows
// ---------------------------------------------------------------------------
/// The rows before the rows of `x`: the first is the first row of the state, and a row that starts
/// a new sequence is zero.
pub open spec fn shifted_rows<T>(
    m: MixerShape,
    x: Seq<T>,
    state: Seq<T>,
    new_starts: Seq<bool>,
    zero: T,
) -> Seq<T> {
    let carried = state.take(m.c as int);
    Seq::new(x.len(), |j: int| shifted(carried, x, new_starts, m.c as int, zero, j))
}

/// The last counting row of `x`.
pub open spec fn last_row<T>(m: MixerShape, x: Seq<T>) -> Seq<T> {
    x.subrange((m.length - 1) * m.c, m.length * m.c)
}

/// Whether input, state and starts have the sizes that a shape says.
pub open spec fn fit<T>(m: MixerShape, x: Seq<T>, state: Seq<T>, new_starts: Seq<bool>) -> bool {
    &&& m.valid()
    &&& 0 < m.c
    &&& x.len() == m.t * m.c
    &&& new_starts.len() == m.t
    &&& m.c <= state.len()
}

/// Copies the last counting row.
fn copy_last_row<T: Copy>(m: MixerShape, x: &[T]) -> (row: Vec<T>)
    requires
        m.valid(),
        0 < m.c,
        x@.len() == m.t * m.c,
    ensures
        row@ == last_row(m, x@),
{
    proof {
        assert(x.len() == x@.len());
        assert((m.length - 1) * m.c >= 0 && m.length * m.c <= m.t * m.c && m.length * m.c == (
        m.length - 1) * m.c + m.c) by (nonlinear_arith)
            requires
                0 < m.length <= m.t,
                0 < m.c,
        ;
    }
    let last: usize = m.carried_row();
    copy_slice(x, last * m.c, last * m.c + m.c)
}

// ---------------------------------------------------------------------------
// The channel mixer
// ---------------------------------------------------------------------------
/// The channel mixer.
pub struct ChannelMixing<C, L> {
    /// The mixing strength.
    pub x_k: C,
    /// The key layer.
    pub key: L,
    /// The value layer.
    pub value: L,
}

/// A pass of a channel mixer: the mixer, the sizes, and the arithmetic.
pub struct ChannelPass<'a, T, C, L, RW, CH, LI, UN, BI> {
    /// The mixer.
    pub model: &'a ChannelMixing<C, L>,
    /// The sizes.
    pub shape: MixerShape,
    /// Zero.
    pub zero: T,
    /// Rows of given elements.
    pub rows: RW,
    /// A row of channels, as it acts on every time step.
    pub channel: CH,
    /// A linear layer.
    pub linear: LI,
    /// An operation on each element.
    pub unary: UN,
    /// An operation on each pair of elements.
    pub binary: BI,
}

impl<'a, T: Copy, C, L, X, RW, CH, LI, UN, BI> ChannelPass<'a, T, C, L, RW, CH, LI, UN, BI> where
    RW: Fn(&Vec<T>) -> X,
    CH: Fn(&C) -> X,
    LI: Fn(&L, &X) -> X,
    UN: Fn(&Unary, &X) -> X,
    BI: Fn(&Binary, &X, &X) -> X,
 {
    /// Each operation gives one result for each argument, whatever holds the rows.
    pub open spec fn valid(&self) -> bool {
        &&& reads1::<T, X, RW>(self.rows)
        &&& computes1::<C, X, CH>(self.channel)
        &&& computes2::<L, X, X, LI>(self.linear)
        &&& computes2::<Unary, X, X, UN>(self.unary)
        &&& computes3::<Binary, X, X, X, BI>(self.binary)
    }

    /// What the mixer makes of rows and the rows before them: the key layer on the rows mixed with
    /// their shift, its squared positive part, and the value layer on that.
    pub open spec fn mixed(&self, x: Seq<T>, state: Seq<T>, new_starts: Seq<bool>) -> X {
        let now = seen1::<T, X, RW>(self.rows, x);
        let before = seen1::<T, X, RW>(
            self.rows,
            shifted_rows(self.shape, x, state, new_starts, self.zero),
        );
        let sx = value3::<Binary, X, X, X, BI>(self.binary, Binary::Sub, before, now);
        let part = value3::<Binary, X, X, X, BI>(
            self.binary,
            Binary::Mul,
            sx,
            value1::<C, X, CH>(self.channel, self.model.x_k),
        );
        let xk = value3::<Binary, X, X, X, BI>(self.binary, Binary::Add, now, part);
        let k = value2::<Unary, X, X, UN>(
            self.unary,
            Unary::Square,
            value2::<Unary, X, X, UN>(
                self.unary,
                Unary::Relu,
                value2::<L, X, X, LI>(self.linear, self.model.key, xk),
            ),
        );
        value2::<L, X, X, LI>(self.linear, self.model.value, k)
    }

    /// The mixed rows, and the row to carry to the next call.
    pub fn forward(&self, x: &[T], state: &[T], new_starts: &[bool]) -> (r: (X, Vec<T>))
        requires
            self.valid(),
            fit(self.shape, x@, state@, new_starts@),
        ensures
            r.0 == self.mixed(x@, state@, new_starts@),
            r.1@ == last_row(self.shape, x@),
    {
        let c: usize = self.shape.c;
        let carried: Vec<T> = copy_slice(state, 0, c);
        let shifted_list: Vec<T> = token_shift(carried.as_slice(), x, new_starts, c, self.zero);
        let list: Vec<T> = copy_slice(x, 0, x.len());
        proof {
            assert(list@ =~= x@);
            assert(state@.take(c as int) =~= carried@);
            assert(shifted_list@ =~= shifted_rows(
                self.shape,
                x@,
                state@,
                new_starts@,
                self.zero,
            ));
        }
        let now: X = see1(&self.rows, &list);
        let before: X = see1(&self.rows, &shifted_list);
        let sx: X = apply3(&self.binary, &Binary::Sub, &before, &now);
        let strength: X = apply1(&self.channel, &self.model.x_k);
        let part: X = apply3(&self.binary, &Binary::Mul, &sx, &strength);
        let xk: X = apply3(&self.binary, &Binary::Add, &now, &part);
        let key: X = apply2(&self.linear, &self.model.key, &xk);
        let positive: X = apply2(&self.unary, &Unary::Relu, &key);
        let k: X = apply2(&self.unary, &Unary::Square, &positive);
        (apply2(&self.linear, &self.model.value, &k), copy_last_row(self.shape, x))
    }
}

// ---------------------------------------------------------------------------
// The time mixer
// ---------------------------------------------------------------------------
/// The time mixer.
pub struct TimeMixing<C, L, Q, M> {
    /// The mixing strength of the receptance.
    pub x_r: C,
    /// The mixing strength of the decay.
    pub x_w: C,
    /// The mixing strength of the keys.
    pub x_k: C,
    /// The mixing strength of the values.
    pub x_v: C,
    /// The mixing strength of the rates.
    pub x_a: C,
    /// The mixing strength of the output weights.
    pub x_g: C,
    /// The receptance layer.
    pub receptance: L,
    /// The decay without input.
    pub w0: C,
    /// The first weight of the decay network.
    pub w1: Q,
    /// The second weight of the decay network.
    pub w2: Q,
    /// The key layer.
    pub key: L,
    /// The value layer.
    pub value: L,
    /// The blend of the first values without input.
    pub v0: C,
    /// The first weight of the blend network.
    pub v1: Q,
    /// The second weight of the blend network.
    pub v2: Q,
    /// The rates without input.
    pub a0: C,
    /// The first weight of the rate network.
    pub a1: Q,
    /// The second weight of the rate network.
    pub a2: Q,
    /// The first weight of the network of the output weights.
    pub g1: Q,
    /// The second weight of the network of the output weights.
    pub g2: Q,
    /// The scale of normalised keys.
    pub k_k: C,
    /// How far the rates scale keys.
    pub k_a: C,
    /// The normalisation of each head.
    pub ln_x: M,
    /// The weight of the direct readout.
    pub r_k: C,
    /// The output layer.
    pub output: L,
}

/// The gates of the seventh recurrence.
pub struct Gates7<X> {
    /// The receptance.
    pub r: X,
    /// The share of the state that is kept.
    pub w: X,
    /// The keys.
    pub k: X,
    /// The values.
    pub v: X,
    /// The removed directions.
    pub a: X,
    /// The directions that replace them.
    pub b: X,
}

/// What a time mixer makes of its rows, in front of the recurrence.
pub struct Mixed7<X> {
    /// The gates.
    pub gates: Gates7<X>,
    /// The output weights.
    pub g: X,
    /// The first values for the layers behind.
    pub v_first: X,
}

/// A pass of a time mixer: the mixer, its layer, the sizes, and the arithmetic.
pub struct TimePass<'a, T, C, L, Q, M, S, RW, CH, LI, LO, UN, BI, PH, LD, ST, CS, SV, SK, NO, CX> {
    /// The mixer.
    pub model: &'a TimeMixing<C, L, Q, M>,
    /// The layer.
    pub layer_id: usize,
    /// The sizes.
    pub shape: MixerShape,
    /// Zero.
    pub zero: T,
    /// The state in front of a new sequence.
    pub zero_state: S,
    /// Rows of given elements.
    pub rows: RW,
    /// A row of channels, as it acts on every time step.
    pub channel: CH,
    /// A linear layer.
    pub linear: LI,
    /// A product with a transposed weight.
    pub low: LO,
    /// An operation on each element.
    pub unary: UN,
    /// An operation on each pair of elements.
    pub binary: BI,
    /// An operation on the channels of each head.
    pub per_head: PH,
    /// The state of a recurrence, of the rows that carry it.
    pub load: LD,
    /// The next state and the output, of a state, the gates and the number of the step.
    pub step: ST,
    /// A copy of a state.
    pub copy_state: CS,
    /// The rows that carry a state.
    pub save: SV,
    /// The rows of the outputs of all steps.
    pub stack: SK,
    /// Normalised rows, of a normalisation, rows and the number of heads.
    pub norm: NO,
    /// A copy of rows.
    pub copy: CX,
}

impl<
    'a,
    T: Copy,
    C,
    L,
    Q,
    M,
    X,
    S,
    O,
    RW,
    CH,
    LI,
    LO,
    UN,
    BI,
    PH,
    LD,
    ST,
    CS,
    SV,
    SK,
    NO,
    CX,
> TimePass<'a, T, C, L, Q, M, S, RW, CH, LI, LO, UN, BI, PH, LD, ST, CS, SV, SK, NO, CX> where
    RW: Fn(&Vec<T>) -> X,
    CH: Fn(&C) -> X,
    LI: Fn(&L, &X) -> X,
    LO: Fn(&Q, &X) -> X,
    UN: Fn(&Unary, &X) -> X,
    BI: Fn(&Binary, &X, &X) -> X,
    PH: Fn(&PerHead, &X, &MixerShape) -> X,
    LD: Fn(&Vec<T>) -> S,
    ST: Fn(&S, &Gates7<X>, &usize) -> (S, O),
    CS: Fn(&S) -> S,
    SV: Fn(&S) -> Vec<T>,
    SK: Fn(&Vec<O>) -> X,
    NO: Fn(&M, &X, &usize) -> X,
    CX: Fn(&X) -> X,
 {
    /// Each operation gives one result for each argument, whatever holds rows and outputs.
    pub open spec fn valid(&self) -> bool {
        &&& reads1::<T, X, RW>(self.rows)
        &&& computes1::<C, X, CH>(self.channel)
        &&& computes2::<L, X, X, LI>(self.linear)
        &&& computes2::<Q, X, X, LO>(self.low)
        &&& computes2::<Unary, X, X, UN>(self.unary)
        &&& computes3::<Binary, X, X, X, BI>(self.binary)
        &&& computes3::<PerHead, X, MixerShape, X, PH>(self.per_head)
        &&& reads1::<T, S, LD>(self.load)
        &&& computes3::<S, Gates7<X>, usize, (S, O), ST>(self.step)
        &&& copies::<S, CS>(self.copy_state)
        &&& lists1::<S, T, SV>(self.save)
        &&& reads1::<O, X, SK>(self.stack)
        &&& computes3::<M, X, usize, X, NO>(self.norm)
        &&& copies::<X, CX>(self.copy)
    }

    /// What an operation makes of each element.
    pub open spec fn un(&self, op: Unary, x: X) -> X {
        value2::<Unary, X, X, UN>(self.unary, op, x)
    }

    /// What an operation makes of each pair of elements.
    pub open spec fn bi(&self, op: Binary, x: X, y: X) -> X {
        value3::<Binary, X, X, X, BI>(self.binary, op, x, y)
    }

    /// What an operation makes of the channels of each head.
    pub open spec fn heads(&self, op: PerHead, x: X) -> X {
        value3::<PerHead, X, MixerShape, X, PH>(self.per_head, op, x, self.shape)
    }

    /// A row of channels.
    pub open spec fn row(&self, c: C) -> X {
        value1::<C, X, CH>(self.channel, c)
    }

    /// What a linear layer makes of rows.
    pub open spec fn layer(&self, l: L, x: X) -> X {
        value2::<L, X, X, LI>(self.linear, l, x)
    }

    /// What a transposed weight makes of rows.
    pub open spec fn times(&self, q: Q, x: X) -> X {
        value2::<Q, X, X, LO>(self.low, q, x)
    }

    /// What a network of two transposed weights makes of rows.
    pub open spec fn network(&self, p: Q, q: Q, x: X) -> X {
        self.times(q, self.un(Unary::Tanh, self.times(p, x)))
    }

    /// Rows mixed with their shift: `x + sx * strength`.
    pub open spec fn blended(&self, x: X, sx: X, strength: X) -> X {
        self.bi(Binary::Add, x, self.bi(Binary::Mul, sx, strength))
    }

    fn apply_un(&self, op: Unary, x: &X) -> (y: X)
        requires
            self.valid(),
        ensures
            y == self.un(op, *x),
    {
        apply2(&self.unary, &op, x)
    }

    fn apply_bi(&self, op: Binary, x: &X, y: &X) -> (z: X)
        requires
            self.valid(),
        ensures
            z == self.bi(op, *x, *y),
    {
        apply3(&self.binary, &op, x, y)
    }

    fn apply_heads(&self, op: PerHead, x: &X) -> (y: X)
        requires
            self.valid(),
        ensures
            y == self.heads(op, *x),
    {
        apply3(&self.per_head, &op, x, &self.shape)
    }

    fn apply_network(&self, p: &Q, q: &Q, x: &X) -> (y: X)
        requires
            self.valid(),
        ensures
            y == self.network(*p, *q, *x),
    {
        let inner: X = apply2(&self.low, p, x);
        let bent: X = self.apply_un(Unary::Tanh, &inner);
        apply2(&self.low, q, &bent)
    }

    fn blend(&self, x: &X, sx: &X, strength: &X) -> (y: X)
        requires
            self.valid(),
        ensures
            y == self.blended(*x, *sx, *strength),
    {
        let part: X = self.apply_bi(Binary::Mul, sx, strength);
        self.apply_bi(Binary::Add, x, &part)
    }

    /// The rows of the input and what leads from them to the rows before them.
    pub open spec fn shifts(&self, x: Seq<T>, state: Seq<T>, new_starts: Seq<bool>) -> (X, X) {
        let now = seen1::<T, X, RW>(self.rows, x);
        let before = seen1::<T, X, RW>(
            self.rows,
            shifted_rows(self.shape, x, state, new_starts, self.zero),
        );
        (now, self.bi(Binary::Sub, before, now))
    }

    fn shift(&self, x: &[T], state: &[T], new_starts: &[bool]) -> (r: (X, X))
        requires
            self.valid(),
            fit(self.shape, x@, state@, new_starts@),
        ensures
            r == self.shifts(x@, state@, new_starts@),
    {
        let c: usize = self.shape.c;
        let carried: Vec<T> = copy_slice(state, 0, c);
        let shifted_list: Vec<T> = token_shift(carried.as_slice(), x, new_starts, c, self.zero);
        let list: Vec<T> = copy_slice(x, 0, x.len());
        proof {
            assert(list@ =~= x@);
            assert(state@.take(c as int) =~= carried@);
            assert(shifted_list@ =~= shifted_rows(
                self.shape,
                x@,
                state@,
                new_starts@,
                self.zero,
            ));
        }
        let now: X = see1(&self.rows, &list);
        let before: X = see1(&self.rows, &shifted_list);
        let sx: X = self.apply_bi(Binary::Sub, &before, &now);
        (now, sx)
    }

    /// The outputs of all steps, and the rows that carry the state behind the last counting one.
    pub open spec fn scanned(&self, gates: Gates7<X>, state: Seq<T>, new_starts: Seq<bool>) -> (
        X,
        Seq<T>,
    ) {
        let m = self.shape;
        let s0 = seen1::<T, S, LD>(self.load, state.skip(m.c as int));
        let last = state_after::<S, Gates7<X>, O, ST>(
            self.step,
            gates,
            s0,
            self.zero_state,
            new_starts,
            m.length as nat,
        );
        let outs = outputs::<S, Gates7<X>, O, ST>(
            self.step,
            gates,
            s0,
            self.zero_state,
            new_starts,
            m.t as nat,
        );
        (seen1::<O, X, SK>(self.stack, outs), listed1::<S, T, SV>(self.save, last))
    }

    fn scan(&self, gates: &Gates7<X>, state: &[T], new_starts: &[bool]) -> (r: (X, Vec<T>))
        requires
            self.valid(),
            self.shape.valid(),
            self.shape.c <= state@.len(),
            new_starts@.len() == self.shape.t,
        ensures
            (r.0, r.1@) == self.scanned(*gates, state@, new_starts@),
    {
        let m: MixerShape = self.shape;
        let carrying: Vec<T> = copy_slice(state, m.c, state.len());
        proof {
            assert(state@.skip(m.c as int) =~= carrying@);
        }
        let s0: S = see1(&self.load, &carrying);
        let (last, outs): (S, Vec<O>) = inner_loop(
            s0,
            &self.zero_state,
            gates,
            m.t,
            m.length,
            new_starts,
            &self.step,
            &self.copy_state,
        );
        (see1(&self.stack, &outs), list1(&self.save, &last))
    }

    /// The values that the recurrence works on, and the first values for the layers behind: the
    /// first layer's are its own values, every other layer blends the first values into its own.
    pub open spec fn values(&self, xv: X, v_first: X) -> (X, X) {
        let own = self.layer(self.model.value, xv);
        if self.layer_id == 0 {
            (own, own)
        } else {
            let share = self.un(
                Unary::Sigmoid,
                self.bi(
                    Binary::Add,
                    self.row(self.model.v0),
                    self.network(self.model.v1, self.model.v2, xv),
                ),
            );
            (self.blended(own, self.bi(Binary::Sub, v_first, own), share), v_first)
        }
    }

    /// What the mixer makes of rows `x` and their shift `sx`, in front of the recurrence.
    pub open spec fn mixed(&self, x: X, sx: X, v_first: X) -> Mixed7<X> {
        let p = self.model;
        let r = self.layer(p.receptance, self.blended(x, sx, self.row(p.x_r)));
        let w = self.un(
            Unary::LessHalf,
            self.un(
                Unary::Neg,
                self.un(
                    Unary::Softplus,
                    self.un(
                        Unary::Neg,
                        self.bi(
                            Binary::Add,
                            self.row(p.w0),
                            self.network(p.w1, p.w2, self.blended(x, sx, self.row(p.x_w))),
                        ),
                    ),
                ),
            ),
        );
        let k = self.layer(p.key, self.blended(x, sx, self.row(p.x_k)));
        let (v, first) = self.values(self.blended(x, sx, self.row(p.x_v)), v_first);
        let a = self.un(
            Unary::Sigmoid,
            self.bi(
                Binary::Add,
                self.row(p.a0),
                self.network(p.a1, p.a2, self.blended(x, sx, self.row(p.x_a))),
            ),
        );
        let g = self.times(
            p.g2,
            self.un(Unary::Sigmoid, self.times(p.g1, self.blended(x, sx, self.row(p.x_g)))),
        );
        let kk = self.heads(PerHead::Unit, self.bi(Binary::Mul, k, self.row(p.k_k)));
        let rate = self.un(
            Unary::PlusOne,
            self.bi(Binary::Mul, self.row(p.k_a), self.un(Unary::LessOne, a)),
        );
        Mixed7 {
            gates: Gates7 {
                r,
                w: self.un(Unary::Exp, self.un(Unary::Neg, self.un(Unary::Exp, w))),
                k: self.bi(Binary::Mul, k, rate),
                v,
                a: self.un(Unary::Neg, kk),
                b: self.bi(Binary::Mul, kk, a),
            },
            g,
            v_first: first,
        }
    }

    /// The result of the outputs of the recurrence: normalised per head, plus the direct readout,
    /// weighted, and through the output layer.
    pub open spec fn read(&self, mx: Mixed7<X>, out: X) -> X {
        let p = self.model;
        let normed = value3::<M, X, usize, X, NO>(self.norm, p.ln_x, out, self.shape.h);
        let rk = self.bi(
            Binary::Mul,
            self.bi(Binary::Mul, mx.gates.r, mx.gates.k),
            self.row(p.r_k),
        );
        let direct = self.bi(Binary::Mul, self.heads(PerHead::Spread, rk), mx.gates.v);
        let y = self.bi(Binary::Mul, self.bi(Binary::Add, normed, direct), mx.g);
        self.layer(p.output, y)
    }

    /// The mixed rows, the state for the next call, and the first values for the layers behind.
    pub open spec fn result(
        &self,
        x: Seq<T>,
        state: Seq<T>,
        v_first: X,
        new_starts: Seq<bool>,
    ) -> (X, Seq<T>, X) {
        let (now, sx) = self.shifts(x, state, new_starts);
        let mx = self.mixed(now, sx, v_first);
        let (out, saved) = self.scanned(mx.gates, state, new_starts);
        (self.read(mx, out), last_row(self.shape, x) + saved, mx.v_first)
    }

    fn make_values(&self, xv: &X, v_first: X) -> (r: (X, X))
        requires
            self.valid(),
        ensures
            r == self.values(*xv, v_first),
    {
        let p = self.model;
        let own: X = apply2(&self.linear, &p.value, xv);
        if self.layer_id == 0 {
            let first: X = apply1(&self.copy, &own);
            (own, first)
        } else {
            let bias: X = apply1(&self.channel, &p.v0);
            let net: X = self.apply_network(&p.v1, &p.v2, xv);
            let sum: X = self.apply_bi(Binary::Add, &bias, &net);
            let share: X = self.apply_un(Unary::Sigmoid, &sum);
            let apart: X = self.apply_bi(Binary::Sub, &v_first, &own);
            (self.blend(&own, &apart, &share), v_first)
        }
    }

    fn input(&self, x: &X, sx: &X, strength: &C) -> (y: X)
        requires
            self.valid(),
        ensures
            y == self.blended(*x, *sx, self.row(*strength)),
    {
        let row: X = apply1(&self.channel, strength);
        self.blend(x, sx, &row)
    }

    fn make_decay(&self, xw: &X) -> (w: X)
        requires
            self.valid(),
        ensures
            w == self.un(
                Unary::LessHalf,
                self.un(
                    Unary::Neg,
                    self.un(
                        Unary::Softplus,
                        self.un(
                            Unary::Neg,
                            self.bi(
                                Binary::Add,
                                self.row(self.model.w0),
                                self.network(self.model.w1, self.model.w2, *xw),
                            ),
                        ),
                    ),
                ),
            ),
    {
        let p = self.model;
        let bias: X = apply1(&self.channel, &p.w0);
        let net: X = self.apply_network(&p.w1, &p.w2, xw);
        let sum: X = self.apply_bi(Binary::Add, &bias, &net);
        let minus: X = self.apply_un(Unary::Neg, &sum);
        let soft: X = self.apply_un(Unary::Softplus, &minus);
        let back: X = self.apply_un(Unary::Neg, &soft);
        self.apply_un(Unary::LessHalf, &back)
    }

    fn make_gates(&self, x: &X, sx: &X, v_first: X) -> (mx: Mixed7<X>)
        requires
            self.valid(),
        ensures
            mx == self.mixed(*x, *sx, v_first),
    {
        let p = self.model;
        let r: X = apply2(&self.linear, &p.receptance, &self.input(x, sx, &p.x_r));
        let w: X = self.make_decay(&self.input(x, sx, &p.x_w));
        let k: X = apply2(&self.linear, &p.key, &self.input(x, sx, &p.x_k));
        let (v, first): (X, X) = self.make_values(&self.input(x, sx, &p.x_v), v_first);
        let a_bias: X = apply1(&self.channel, &p.a0);
        let a_net: X = self.apply_network(&p.a1, &p.a2, &self.input(x, sx, &p.x_a));
        let a_sum: X = self.apply_bi(Binary::Add, &a_bias, &a_net);
        let a: X = self.apply_un(Unary::Sigmoid, &a_sum);
        let g_in: X = apply2(&self.low, &p.g1, &self.input(x, sx, &p.x_g));
        let g_bent: X = self.apply_un(Unary::Sigmoid, &g_in);
        let g: X = apply2(&self.low, &p.g2, &g_bent);
        let k_k: X = apply1(&self.channel, &p.k_k);
        let kk_raw: X = self.apply_bi(Binary::Mul, &k, &k_k);
        let kk: X = self.apply_heads(PerHead::Unit, &kk_raw);
        let k_a: X = apply1(&self.channel, &p.k_a);
        let less: X = self.apply_un(Unary::LessOne, &a);
        let scaled: X = self.apply_bi(Binary::Mul, &k_a, &less);
        let rate: X = self.apply_un(Unary::PlusOne, &scaled);
        let grown: X = self.apply_un(Unary::Exp, &w);
        let sunk: X = self.apply_un(Unary::Neg, &grown);
        Mixed7 {
            gates: Gates7 {
                r,
                w: self.apply_un(Unary::Exp, &sunk),
                k: self.apply_bi(Binary::Mul, &k, &rate),
                v,
                a: self.apply_un(Unary::Neg, &kk),
                b: self.apply_bi(Binary::Mul, &kk, &a),
            },
            g,
            v_first: first,
        }
    }

    fn readout(&self, mx: &Mixed7<X>, out: &X) -> (y: X)
        requires
            self.valid(),
        ensures
            y == self.read(*mx, *out),
    {
        let p = self.model;
        let normed: X = apply3(&self.norm, &p.ln_x, out, &self.shape.h);
        let rk: X = self.apply_bi(Binary::Mul, &mx.gates.r, &mx.gates.k);
        let weight: X = apply1(&self.channel, &p.r_k);
        let weighted: X = self.apply_bi(Binary::Mul, &rk, &weight);
        let spread: X = self.apply_heads(PerHead::Spread, &weighted);
        let direct: X = self.apply_bi(Binary::Mul, &spread, &mx.gates.v);
        let sum: X = self.apply_bi(Binary::Add, &normed, &direct);
        let y: X = self.apply_bi(Binary::Mul, &sum, &mx.g);
        apply2(&self.linear, &p.output, &y)
    }

    /// Runs the mixer over the rows of `x`. The first row of `state` is the row before the first;
    /// the others carry the state of the recurrence. Gives the mixed rows, the state for the next
    /// call and the first values for the layers behind.
    pub fn forward(&self, x: &[T], state: &[T], v_first: X, new_starts: &[bool]) -> (r: (
        X,
        Vec<T>,
        X,
    ))
        requires
            self.valid(),
            fit(self.shape, x@, state@, new_starts@),
        ensures
            (r.0, r.1@, r.2) == self.result(x@, state@, v_first, new_starts@),
    {
        let (now, sx): (X, X) = self.shift(x, state, new_starts);
        let mx: Mixed7<X> = self.make_gates(&now, &sx, v_first);
        let (out, saved): (X, Vec<T>) = self.scan(&mx.gates, state, new_starts);
        let y: X = self.readout(&mx, &out);
        let mut next: Vec<T> = copy_last_row(self.shape, x);
        let mut saved = saved;
        next.append(&mut saved);
        (y, next, mx.v_first)
    }

    /// First values pass through: every layer but the first hands on the first values that it was
    /// given, and the first layer hands on the values that its recurrence works on.
    pub proof fn first_values_pass_through(
        &self,
        x: Seq<T>,
        state: Seq<T>,
        v_first: X,
        new_starts: Seq<bool>,
    )
        ensures
            self.layer_id != 0 ==> self.result(x, state, v_first, new_starts).2 == v_first,
            self.layer_id == 0 ==> ({
                let (now, sx) = self.shifts(x, state, new_starts);
                self.result(x, state, v_first, new_starts).2 == self.mixed(
                    now,
                    sx,
                    v_first,
                ).gates.v
            }),
    {
    }
}

// ---------------------------------------------------------------------------
// Attention by the sixth recurrence
// ---------------------------------------------------------------------------
/// Attention by the sixth recurrence.
pub struct RWKV6Attention<C, L, Q> {
    /// The mixing strength of the input of the strengths.
    pub time_maa_x: C,
    /// The mixing strength of the receptance.
    pub time_maa_r: C,
    /// The mixing strength of the keys.
    pub time_maa_k: C,
    /// The mixing strength of the values.
    pub time_maa_v: C,
    /// The mixing strength of the decay.
    pub time_maa_w: C,
    /// The mixing strength of the output weights.
    pub time_maa_g: C,
    /// The first weight of the network of the strengths, five parts side by side.
    pub time_maa_w1: Q,
    /// The second weight of the network of the strengths.
    pub time_maa_w2: Q,
    /// The decay without input.
    pub time_decay: C,
    /// The first weight of the decay network.
    pub time_decay_w1: Q,
    /// The second weight of the decay network.
    pub time_decay_w2: Q,
    /// The receptance layer.
    pub q_proj: L,
    /// The key layer.
    pub k_proj: L,
    /// The value layer.
    pub v_proj: L,
    /// The layer of the output weights.
    pub gate: L,
    /// The output layer.
    pub o_proj: L,
}

/// The gates of the sixth recurrence.
pub struct Gates6<X> {
    /// The receptance.
    pub r: X,
    /// The keys.
    pub k: X,
    /// The values.
    pub v: X,
    /// The share of the state that is kept.
    pub w: X,
}

/// What attention makes of its rows, in front of the recurrence.
pub struct Mixed6<X> {
    /// The gates.
    pub gates: Gates6<X>,
    /// The output weights.
    pub g: X,
}

/// A pass of attention: its weights, the sizes, and the arithmetic.
pub struct AttentionPass<
    'a,
    T,
    C,
    L,
    Q,
    S,
    RW,
    CH,
    LI,
    LO,
    UN,
    BI,
    PH,
    LD,
    ST,
    CS,
    SV,
    SK,
    PA,
    RE,
> {
    /// The weights.
    pub model: &'a RWKV6Attention<C, L, Q>,
    /// The sizes.
    pub shape: MixerShape,
    /// Zero.
    pub zero: T,
    /// The state in front of a new sequence.
    pub zero_state: S,
    /// Rows of given elements.
    pub rows: RW,
    /// A row of channels, as it acts on every time step.
    pub channel: CH,
    /// A linear layer.
    pub linear: LI,
    /// A product with a transposed weight.
    pub low: LO,
    /// An operation on each element.
    pub unary: UN,
    /// An operation on each pair of elements.
    pub binary: BI,
    /// An operation on the channels of each head.
    pub per_head: PH,
    /// The state of a recurrence, of the rows that carry it.
    pub load: LD,
    /// The next state and the output, of a state, the gates and the number of the step.
    pub step: ST,
    /// A copy of a state.
    pub copy_state: CS,
    /// The rows that carry a state.
    pub save: SV,
    /// The rows of the outputs of all steps.
    pub stack: SK,
    /// One of five parts that stand side by side.
    pub part: PA,
    /// Each head some times in a row.
    pub repeat: RE,
}

impl<
    'a,
    T: Copy,
    C,
    L,
    Q,
    X,
    S,
    O,
    RW,
    CH,
    LI,
    LO,
    UN,
    BI,
    PH,
    LD,
    ST,
    CS,
    SV,
    SK,
    PA,
    RE,
> AttentionPass<'a, T, C, L, Q, S, RW, CH, LI, LO, UN, BI, PH, LD, ST, CS, SV, SK, PA, RE> where
    RW: Fn(&Vec<T>) -> X,
    CH: Fn(&C) -> X,
    LI: Fn(&L, &X) -> X,
    LO: Fn(&Q, &X) -> X,
    UN: Fn(&Unary, &X) -> X,
    BI: Fn(&Binary, &X, &X) -> X,
    PH: Fn(&PerHead, &X, &MixerShape) -> X,
    LD: Fn(&Vec<T>) -> S,
    ST: Fn(&S, &Gates6<X>, &usize) -> (S, O),
    CS: Fn(&S) -> S,
    SV: Fn(&S) -> Vec<T>,
    SK: Fn(&Vec<O>) -> X,
    PA: Fn(&X, &usize) -> X,
    RE: Fn(&X, &usize) -> X,
 {
    /// Each operation gives one result for each argument, whatever holds rows and outputs.
    pub open spec fn valid(&self) -> bool {
        &&& reads1::<T, X, RW>(self.rows)
        &&& computes1::<C, X, CH>(self.channel)
        &&& computes2::<L, X, X, LI>(self.linear)
        &&& computes2::<Q, X, X, LO>(self.low)
        &&& computes2::<Unary, X, X, UN>(self.unary)
        &&& computes3::<Binary, X, X, X, BI>(self.binary)
        &&& computes3::<PerHead, X, MixerShape, X, PH>(self.per_head)
        &&& reads1::<T, S, LD>(self.load)
        &&& computes3::<S, Gates6<X>, usize, (S, O), ST>(self.step)
        &&& copies::<S, CS>(self.copy_state)
        &&& lists1::<S, T, SV>(self.save)
        &&& reads1::<O, X, SK>(self.stack)
        &&& computes2::<X, usize, X, PA>(self.part)
        &&& computes2::<X, usize, X, RE>(self.repeat)
    }

    /// What an operation makes of each element.
    pub open spec fn un(&self, op: Unary, x: X) -> X {
        value2::<Unary, X, X, UN>(self.unary, op, x)
    }

    /// What an operation makes of each pair of elements.
    pub open spec fn bi(&self, op: Binary, x: X, y: X) -> X {
        value3::<Binary, X, X, X, BI>(self.binary, op, x, y)
    }

    /// What an operation makes of the channels of each head.
    pub open spec fn heads(&self, op: PerHead, x: X) -> X {
        value3::<PerHead, X, MixerShape, X, PH>(self.per_head, op, x, self.shape)
    }

    /// A row of channels.
    pub open spec fn row(&self, c: C) -> X {
        value1::<C, X, CH>(self.channel, c)
    }

    /// What a linear layer makes of rows.
    pub open spec fn layer(&self, l: L, x: X) -> X {
        value2::<L, X, X, LI>(self.linear, l, x)
    }

    /// What a transposed weight makes of rows.
    pub open spec fn times(&self, q: Q, x: X) -> X {
        value2::<Q, X, X, LO>(self.low, q, x)
    }

    /// What a network of two transposed weights makes of rows.
    pub open spec fn network(&self, p: Q, q: Q, x: X) -> X {
        self.times(q, self.un(Unary::Tanh, self.times(p, x)))
    }

    /// Rows mixed with their shift: `x + sx * strength`.
    pub open spec fn blended(&self, x: X, sx: X, strength: X) -> X {
        self.bi(Binary::Add, x, self.bi(Binary::Mul, sx, strength))
    }

    fn apply_un(&self, op: Unary, x: &X) -> (y: X)
        requires
            self.valid(),
        ensures
            y == self.un(op, *x),
    {
        apply2(&self.unary, &op, x)
    }

    fn apply_bi(&self, op: Binary, x: &X, y: &X) -> (z: X)
        requires
            self.valid(),
        ensures
            z == self.bi(op, *x, *y),
    {
        apply3(&self.binary, &op, x, y)
    }

    fn apply_heads(&self, op: PerHead, x: &X) -> (y: X)
        requires
            self.valid(),
        ensures
            y == self.heads(op, *x),
    {
        apply3(&self.per_head, &op, x, &self.shape)
    }

    fn apply_network(&self, p: &Q, q: &Q, x: &X) -> (y: X)
        requires
            self.valid(),
        ensures
            y == self.network(*p, *q, *x),
    {
        let inner: X = apply2(&self.low, p, x);
        let bent: X = self.apply_un(Unary::Tanh, &inner);
        apply2(&self.low, q, &bent)
    }

    fn blend(&self, x: &X, sx: &X, strength: &X) -> (y: X)
        requires
            self.valid(),
        ensures
            y == self.blended(*x, *sx, *strength),
    {
        let part: X = self.apply_bi(Binary::Mul, sx, strength);
        self.apply_bi(Binary::Add, x, &part)
    }

    /// The rows of the input and what leads from them to the rows before them.
    pub open spec fn shifts(&self, x: Seq<T>, state: Seq<T>, new_starts: Seq<bool>) -> (X, X) {
        let now = seen1::<T, X, RW>(self.rows, x);
        let before = seen1::<T, X, RW>(
            self.rows,
            shifted_rows(self.shape, x, state, new_starts, self.zero),
        );
        (now, self.bi(Binary::Sub, before, now))
    }

    fn shift(&self, x: &[T], state: &[T], new_starts: &[bool]) -> (r: (X, X))
        requires
            self.valid(),
            fit(self.shape, x@, state@, new_starts@),
        ensures
            r == self.shifts(x@, state@, new_starts@),
    {
        let c: usize = self.shape.c;
        let carried: Vec<T> = copy_slice(state, 0, c);
        let shifted_list: Vec<T> = token_shift(carried.as_slice(), x, new_starts, c, self.zero);
        let list: Vec<T> = copy_slice(x, 0, x.len());
        proof {
            assert(list@ =~= x@);
            assert(state@.take(c as int) =~= carried@);
            assert(shifted_list@ =~= shifted_rows(
                self.shape,
                x@,
                state@,
                new_starts@,
                self.zero,
            ));
        }
        let now: X = see1(&self.rows, &list);
        let before: X = see1(&self.rows, &shifted_list);
        let sx: X = self.apply_bi(Binary::Sub, &before, &now);
        (now, sx)
    }

    /// The outputs of all steps, and the rows that carry the state behind the last counting one.
    pub open spec fn scanned(&self, gates: Gates6<X>, state: Seq<T>, new_starts: Seq<bool>) -> (
        X,
        Seq<T>,
    ) {
        let m = self.shape;
        let s0 = seen1::<T, S, LD>(self.load, state.skip(m.c as int));
        let last = state_after::<S, Gates6<X>, O, ST>(
            self.step,
            gates,
            s0,
            self.zero_state,
            new_starts,
            m.length as nat,
        );
        let outs = outputs::<S, Gates6<X>, O, ST>(
            self.step,
            gates,
            s0,
            self.zero_state,
            new_starts,
            m.t as nat,
        );
        (seen1::<O, X, SK>(self.stack, outs), listed1::<S, T, SV>(self.save, last))
    }

    fn scan(&self, gates: &Gates6<X>, state: &[T], new_starts: &[bool]) -> (r: (X, Vec<T>))
        requires
            self.valid(),
            self.shape.valid(),
            self.shape.c <= state@.len(),
            new_starts@.len() == self.shape.t,
        ensures
            (r.0, r.1@) == self.scanned(*gates, state@, new_starts@),
    {
        let m: MixerShape = self.shape;
        let carrying: Vec<T> = copy_slice(state, m.c, state.len());
        proof {
            assert(state@.skip(m.c as int) =~= carrying@);
        }
        let s0: S = see1(&self.load, &carrying);
        let (last, outs): (S, Vec<O>) = inner_loop(
            s0,
            &self.zero_state,
            gates,
            m.t,
            m.length,
            new_starts,
            &self.step,
            &self.copy_state,
        );
        (see1(&self.stack, &outs), list1(&self.save, &last))
    }

    /// Rows mixed with their shift by a strength and what the network adds to it: `hidden` holds
    /// five parts, of which `i` belongs to this strength.
    pub open spec fn input(&self, x: X, sx: X, hidden: X, c: C, i: usize) -> X {
        let added = self.times(
            self.model.time_maa_w2,
            value2::<X, usize, X, PA>(self.part, hidden, i),
        );
        self.blended(x, sx, self.bi(Binary::Add, self.row(c), added))
    }

    /// Keys or values of as many heads as the receptance has.
    pub open spec fn spread_heads(&self, x: X) -> X {
        let n = self.shape.h as int / (self.shape.c as int / self.shape.s as int);
        if n > 1 {
            value2::<X, usize, X, RE>(self.repeat, x, n as usize)
        } else {
            x
        }
    }

    /// What attention makes of rows `x` and their shift `sx`, in front of the recurrence.
    pub open spec fn mixed(&self, x: X, sx: X) -> Mixed6<X> {
        let p = self.model;
        let hidden = self.un(
            Unary::Tanh,
            self.times(p.time_maa_w1, self.blended(x, sx, self.row(p.time_maa_x))),
        );
        let r = self.layer(p.q_proj, self.input(x, sx, hidden, p.time_maa_r, 0));
        let k = self.layer(p.k_proj, self.input(x, sx, hidden, p.time_maa_k, 1));
        let v = self.layer(p.v_proj, self.input(x, sx, hidden, p.time_maa_v, 2));
        let decay = self.bi(
            Binary::Add,
            self.row(p.time_decay),
            self.network(
                p.time_decay_w1,
                p.time_decay_w2,
                self.input(x, sx, hidden, p.time_maa_w, 3),
            ),
        );
        let g = self.un(
            Unary::Sigmoid,
            self.layer(p.gate, self.input(x, sx, hidden, p.time_maa_g, 4)),
        );
        let log_w = self.un(
            Unary::AtLeastMinusFive,
            self.un(Unary::Neg, self.un(Unary::Exp, decay)),
        );
        let w = self.un(Unary::Exp, log_w);
        let rest = self.un(Unary::PlusOne, self.un(Unary::Neg, w));
        Mixed6 {
            gates: Gates6 {
                r: self.heads(PerHead::Scale, r),
                k: self.bi(Binary::Mul, self.spread_heads(k), rest),
                v: self.spread_heads(v),
                w,
            },
            g,
        }
    }

    /// The mixed rows and the state for the next call.
    pub open spec fn result(&self, x: Seq<T>, state: Seq<T>, new_starts: Seq<bool>) -> (
        X,
        Seq<T>,
    ) {
        let (now, sx) = self.shifts(x, state, new_starts);
        let mx = self.mixed(now, sx);
        let (out, saved) = self.scanned(mx.gates, state, new_starts);
        (
            self.layer(self.model.o_proj, self.bi(Binary::Mul, out, mx.g)),
            last_row(self.shape, x) + saved,
        )
    }

    fn make_input(&self, x: &X, sx: &X, hidden: &X, c: &C, i: usize) -> (y: X)
        requires
            self.valid(),
        ensures
            y == self.input(*x, *sx, *hidden, *c, i),
    {
        let part: X = apply2(&self.part, hidden, &i);
        let added: X = apply2(&self.low, &self.model.time_maa_w2, &part);
        let row: X = apply1(&self.channel, c);
        let strength: X = self.apply_bi(Binary::Add, &row, &added);
        self.blend(x, sx, &strength)
    }

    fn repeat_heads(&self, x: X) -> (y: X)
        requires
            self.valid(),
            self.shape.valid(),
            0 < self.shape.c,
        ensures
            y == self.spread_heads(x),
    {
        proof {
            heads_of(self.shape);
        }
        let n: usize = kv_repeats(self.shape.h, self.shape.c / self.shape.s);
        if n > 1 {
            apply2(&self.repeat, &x, &n)
        } else {
            x
        }
    }

    fn make_gates(&self, x: &X, sx: &X) -> (mx: Mixed6<X>)
        requires
            self.valid(),
            self.shape.valid(),
            0 < self.shape.c,
        ensures
            mx == self.mixed(*x, *sx),
    {
        let p = self.model;
        let maa: X = apply1(&self.channel, &p.time_maa_x);
        let maa_in: X = self.blend(x, sx, &maa);
        let wide: X = apply2(&self.low, &p.time_maa_w1, &maa_in);
        let hidden: X = self.apply_un(Unary::Tanh, &wide);
        let xr: X = self.make_input(x, sx, &hidden, &p.time_maa_r, 0);
        let r: X = apply2(&self.linear, &p.q_proj, &xr);
        let xk: X = self.make_input(x, sx, &hidden, &p.time_maa_k, 1);
        let k: X = apply2(&self.linear, &p.k_proj, &xk);
        let xv: X = self.make_input(x, sx, &hidden, &p.time_maa_v, 2);
        let v: X = apply2(&self.linear, &p.v_proj, &xv);
        let bias: X = apply1(&self.channel, &p.time_decay);
        let net: X = self.apply_network(
            &p.time_decay_w1,
            &p.time_decay_w2,
            &self.make_input(x, sx, &hidden, &p.time_maa_w, 3),
        );
        let decay: X = self.apply_bi(Binary::Add, &bias, &net);
        let xg: X = self.make_input(x, sx, &hidden, &p.time_maa_g, 4);
        let g_in: X = apply2(&self.linear, &p.gate, &xg);
        let g: X = self.apply_un(Unary::Sigmoid, &g_in);
        let grown: X = self.apply_un(Unary::Exp, &decay);
        let sunk: X = self.apply_un(Unary::Neg, &grown);
        let log_w: X = self.apply_un(Unary::AtLeastMinusFive, &sunk);
        let w: X = self.apply_un(Unary::Exp, &log_w);
        let minus: X = self.apply_un(Unary::Neg, &w);
        let rest: X = self.apply_un(Unary::PlusOne, &minus);
        let wide_k: X = self.repeat_heads(k);
        Mixed6 {
            gates: Gates6 {
                r: self.apply_heads(PerHead::Scale, &r),
                k: self.apply_bi(Binary::Mul, &wide_k, &rest),
                v: self.repeat_heads(v),
                w,
            },
            g,
        }
    }

    /// Runs attention over the rows of `x`. The first row of `state` is the row before the first;
    /// the others carry the state of the recurrence. Gives the mixed rows and the state for the
    /// next call.
    pub fn forward(&self, x: &[T], state: &[T], new_starts: &[bool]) -> (r: (X, Vec<T>))
        requires
            self.valid(),
            fit(self.shape, x@, state@, new_starts@),
        ensures
            (r.0, r.1@) == self.result(x@, state@, new_starts@),
    {
        let (now, sx): (X, X) = self.shift(x, state, new_starts);
        let mx: Mixed6<X> = self.make_gates(&now, &sx);
        let (out, saved): (X, Vec<T>) = self.scan(&mx.gates, state, new_starts);
        let weighted: X = self.apply_bi(Binary::Mul, &out, &mx.g);
        let y: X = apply2(&self.linear, &self.model.o_proj, &weighted);
        let mut next: Vec<T> = copy_last_row(self.shape, x);
        let mut saved = saved;
        next.append(&mut saved);
        (y, next)
    }
}

/// The heads of a mixer are its channels over the channels per head.
proof fn heads_of(m: MixerShape)
    requires
        m.valid(),
        0 < m.c,
    ensures
        0 < m.s,
        m.c as int / m.s as int == m.h,
        0 < m.h,
{
    assert(0 < m.s && 0 < m.h) by (nonlinear_arith)
        requires
            0 < m.c,
            m.c == m.h * m.s,
            0 <= m.s,
            0 <= m.h,
    ;
    vstd::arithmetic::div_mod::lemma_fundamental_div_mod_converse(
        m.c as int,
        m.s as int,
        m.h as int,
        0,
    );
}

} // verus!
