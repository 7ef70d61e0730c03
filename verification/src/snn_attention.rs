//! The spiking attention classifier: rate-encoded queries, keys and values, one
//! of two attention routes, and a readout.

use vstd::prelude::*;

use crate::ops::{
    apply1, apply2, apply4, computes1, computes2, computes4, made, make, makes, reads1, see1, seen1,
    value1, value2, value4,
};
use crate::recurrent::{matmul_3d, products};

verus! {

/// How attention weights are found.
#[derive(Debug, Clone, Copy, PartialEq, Eq, Structural)]
pub enum Route {
    /// A graded attractor competition.
    Hopfield,
    /// Population dynamics with divisive normalization.
    MeanField,
}

/// The attention classifier.
pub struct SnnAttentionModel<P> {
    /// The query weight.
    pub q: P,
    /// The key weight.
    pub k: P,
    /// The value weight.
    pub v: P,
    /// The readout weight.
    pub out: P,
    /// The readout gain.
    pub out_gain: P,
    /// The raw attention temperature.
    pub beta: P,
    /// Whether the temperature is the trained one, or fixed by the dimension of the head.
    pub trainable_beta: bool,
    /// The attention route.
    pub route: Route,
}

/// The arithmetic of an attention classifier.
pub struct AttentionOps<J, R, SP, FX, HO, MF, PO, SC> {
    /// The product of a time step, or of the pooled values, with a weight.
    pub product: J,
    /// The rates of all time steps.
    pub rate: R,
    /// The temperature of its raw parameter.
    pub softplus: SP,
    /// The fixed temperature of a head, by the rates of its queries.
    pub fixed: FX,
    /// The weighted values of the attractor competition, of queries, keys, values and temperature.
    pub hopfield: HO,
    /// The weighted values of the population dynamics, of queries, keys, values and temperature.
    pub mean_field: MF,
    /// The mean over tokens.
    pub pool: PO,
    /// Logits times the gain.
    pub scale: SC,
}

impl<J, R, SP, FX, HO, MF, PO, SC> AttentionOps<J, R, SP, FX, HO, MF, PO, SC> {
    /// Each operation gives one result for each argument, whatever holds the time steps.
    pub open spec fn valid<P, X, B>(&self) -> bool where
        J: Fn(&X, &P) -> X,
        R: Fn(&Vec<X>) -> X,
        SP: Fn(&P) -> B,
        FX: Fn(&X) -> B,
        HO: Fn(&X, &X, &X, &B) -> X,
        MF: Fn(&X, &X, &X, &B) -> X,
        PO: Fn(&X) -> X,
        SC: Fn(&X, &P) -> X,
     {
        &&& computes2::<X, P, X, J>(self.product)
        &&& reads1::<X, X, R>(self.rate)
        &&& computes1::<P, B, SP>(self.softplus)
        &&& computes1::<X, B, FX>(self.fixed)
        &&& computes4::<X, X, X, B, X, HO>(self.hopfield)
        &&& computes4::<X, X, X, B, X, MF>(self.mean_field)
        &&& computes1::<X, X, PO>(self.pool)
        &&& computes2::<X, P, X, SC>(self.scale)
    }

    /// The weighted values of a route.
    pub open spec fn attended<X, B>(&self, route: Route, q: X, k: X, v: X, beta: B) -> X where
        HO: Fn(&X, &X, &X, &B) -> X,
        MF: Fn(&X, &X, &X, &B) -> X,
     {
        match route {
            Route::Hopfield => value4::<X, X, X, B, X, HO>(self.hopfield, q, k, v, beta),
            Route::MeanField => value4::<X, X, X, B, X, MF>(self.mean_field, q, k, v, beta),
        }
    }

    /// Applies the attention of a route.
    fn attention<X, B>(&self, route: Route, q: &X, k: &X, v: &X, beta: &B) -> (o: X) where
        HO: Fn(&X, &X, &X, &B) -> X,
        MF: Fn(&X, &X, &X, &B) -> X,

        requires
            computes4::<X, X, X, B, X, HO>(self.hopfield),
            computes4::<X, X, X, B, X, MF>(self.mean_field),
        ensures
            o == self.attended::<X, B>(route, *q, *k, *v, *beta),
    {
        match route {
            Route::Hopfield => apply4(&self.hopfield, q, k, v, beta),
            Route::MeanField => apply4(&self.mean_field, q, k, v, beta),
        }
    }
}

impl<P> SnnAttentionModel<P> {
    /// A classifier with a trained temperature; `random` makes a weight of a shape and the number
    /// of its inputs.
    pub fn new<F: Fn(([usize; 2], usize)) -> P>(
        token_in_dim: usize,
        num_classes: usize,
        d_head: usize,
        route: Route,
        random: &F,
        one: P,
        raw_beta: P,
    ) -> (model: Self)
        requires
            makes::<([usize; 2], usize), P, F>(*random),
        ensures
            made::<([usize; 2], usize), P, F>(
                *random,
                ([d_head, token_in_dim], token_in_dim),
                model.q,
            ),
            made::<([usize; 2], usize), P, F>(
                *random,
                ([d_head, token_in_dim], token_in_dim),
                model.k,
            ),
            made::<([usize; 2], usize), P, F>(
                *random,
                ([d_head, token_in_dim], token_in_dim),
                model.v,
            ),
            made::<([usize; 2], usize), P, F>(
                *random,
                ([num_classes, d_head], d_head),
                model.out,
            ),
            model.out_gain == one,
            model.beta == raw_beta,
            model.trainable_beta,
            model.route == route,
    {
        let q = make(random, ([d_head, token_in_dim], token_in_dim));
        let k = make(random, ([d_head, token_in_dim], token_in_dim));
        let v = make(random, ([d_head, token_in_dim], token_in_dim));
        let out = make(random, ([num_classes, d_head], d_head));
        SnnAttentionModel {
            q,
            k,
            v,
            out,
            out_gain: one,
            beta: raw_beta,
            trainable_beta: true,
            route,
        }
    }

    /// The logits of projected spikes: the rates of queries, keys and values meet in the attention
    /// of the model's route, at the trained or the fixed temperature; the mean of the weighted
    /// values is projected and scaled.
    pub open spec fn logits<X, B, J, R, SP, FX, HO, MF, PO, SC>(
        &self,
        ops: AttentionOps<J, R, SP, FX, HO, MF, PO, SC>,
        q: Seq<X>,
        k: Seq<X>,
        v: Seq<X>,
    ) -> X where
        J: Fn(&X, &P) -> X,
        R: Fn(&Vec<X>) -> X,
        SP: Fn(&P) -> B,
        FX: Fn(&X) -> B,
        HO: Fn(&X, &X, &X, &B) -> X,
        MF: Fn(&X, &X, &X, &B) -> X,
        PO: Fn(&X) -> X,
        SC: Fn(&X, &P) -> X,
     {
        let q_rate = seen1::<X, X, R>(ops.rate, q);
        let k_rate = seen1::<X, X, R>(ops.rate, k);
        let v_rate = seen1::<X, X, R>(ops.rate, v);
        let beta = if self.trainable_beta {
            value1::<P, B, SP>(ops.softplus, self.beta)
        } else {
            value1::<X, B, FX>(ops.fixed, q_rate)
        };
        let o = ops.attended::<X, B>(self.route, q_rate, k_rate, v_rate, beta);
        let pooled = value1::<X, X, PO>(ops.pool, o);
        value2::<X, P, X, SC>(
            ops.scale,
            value2::<X, P, X, J>(ops.product, pooled, self.out),
            self.out_gain,
        )
    }

    /// The logits of spikes: those of the spikes times the query, the key and the value weight.
    pub open spec fn outcome<X, B, J, R, SP, FX, HO, MF, PO, SC>(
        &self,
        ops: AttentionOps<J, R, SP, FX, HO, MF, PO, SC>,
        x: Seq<X>,
    ) -> X where
        J: Fn(&X, &P) -> X,
        R: Fn(&Vec<X>) -> X,
        SP: Fn(&P) -> B,
        FX: Fn(&X) -> B,
        HO: Fn(&X, &X, &X, &B) -> X,
        MF: Fn(&X, &X, &X, &B) -> X,
        PO: Fn(&X) -> X,
        SC: Fn(&X, &P) -> X,
     {
        self.logits::<X, B, J, R, SP, FX, HO, MF, PO, SC>(
            ops,
            products::<X, P, X, J>(ops.product, x, self.q),
            products::<X, P, X, J>(ops.product, x, self.k),
            products::<X, P, X, J>(ops.product, x, self.v),
        )
    }

    /// The logits of spikes, given step by step.
    pub fn forward<X, B, J, R, SP, FX, HO, MF, PO, SC>(
        &self,
        ops: &AttentionOps<J, R, SP, FX, HO, MF, PO, SC>,
        x: &[X],
    ) -> (y: X) where
        J: Fn(&X, &P) -> X,
        R: Fn(&Vec<X>) -> X,
        SP: Fn(&P) -> B,
        FX: Fn(&X) -> B,
        HO: Fn(&X, &X, &X, &B) -> X,
        MF: Fn(&X, &X, &X, &B) -> X,
        PO: Fn(&X) -> X,
        SC: Fn(&X, &P) -> X,

        requires
            ops.valid::<P, X, B>(),
        ensures
            y == self.outcome::<X, B, J, R, SP, FX, HO, MF, PO, SC>(*ops, x@),
    {
        let q: Vec<X> = matmul_3d(&ops.product, x, &self.q);
        let k: Vec<X> = matmul_3d(&ops.product, x, &self.k);
        let v: Vec<X> = matmul_3d(&ops.product, x, &self.v);
        let q_rate: X = see1(&ops.rate, &q);
        let k_rate: X = see1(&ops.rate, &k);
        let v_rate: X = see1(&ops.rate, &v);
        let beta: B = if self.trainable_beta {
            apply1(&ops.softplus, &self.beta)
        } else {
            apply1(&ops.fixed, &q_rate)
        };
        let o: X = ops.attention(self.route, &q_rate, &k_rate, &v_rate, &beta);
        let pooled: X = apply1(&ops.pool, &o);
        let logits: X = apply2(&ops.product, &pooled, &self.out);
        apply2(&ops.scale, &logits, &self.out_gain)
    }
}

} // verus!
