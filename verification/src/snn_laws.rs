//! What holds of the spiking classifiers: each layer has its own weight and threshold, noise is a
//! change of the weights, and attention is read by the values.

use vstd::prelude::*;

use crate::ops::{seen1, seen3, value1, value2, value3, value4};
use crate::recurrent::products;
use crate::scan_laws::{layers_go_on, one_current};
use crate::snn::{SnnModel, SpikingOps, TrainableVthSnn};
use crate::snn_attention::{AttentionOps, Route, SnnAttentionModel};

verus! {

// ---------------------------------------------------------------------------
// Layers
// ---------------------------------------------------------------------------
impl<J, Z, L, M, G> SpikingOps<J, Z, L, M, G> {
    /// A layer is causal and starts at rest: its spikes at the first step are those of the
    /// resting membrane and the first product, and what comes later changes no spike before.
    pub proof fn layers_are_causal<P, Y, H>(
        &self,
        product: spec_fn(Y, P) -> Y,
        first: Seq<Y>,
        later: Seq<Y>,
        weight: P,
        threshold: H,
    ) where Z: Fn(&P) -> Y, L: Fn(&Y, &Y, &H) -> (Y, Y)
        requires
            first.len() > 0,
        ensures
            self.hidden::<P, Y, H>(product, first + later, weight, threshold).take(
                first.len() as int,
            ) == self.hidden::<P, Y, H>(product, first, weight, threshold),
            self.hidden::<P, Y, H>(product, first + later, weight, threshold).len() == first.len()
                + later.len(),
            self.hidden::<P, Y, H>(product, first, weight, threshold)[0] == value3::<
                Y,
                Y,
                H,
                (Y, Y),
                L,
            >(
                self.lif_step,
                value1::<P, Y, Z>(self.rest, weight),
                product(first[0], weight),
                threshold,
            ).1,
    {
        let rest = value1::<P, Y, Z>(self.rest, weight);
        let one = Seq::new(first.len(), |i: int| product(first[i], weight));
        let two = Seq::new(later.len(), |i: int| product(later[i], weight));
        let all = Seq::new((first + later).len(), |i: int| product((first + later)[i], weight));
        assert(all =~= one + two);
        layers_go_on::<Y, Y, H, Y, L>(self.lif_step, threshold, rest, one, two);
        let long = self.hidden::<P, Y, H>(product, first + later, weight, threshold);
        let short = self.hidden::<P, Y, H>(product, first, weight, threshold);
        assert(long.take(first.len() as int) =~= short);
        let (head, tail) = (one.take(1), one.skip(1));
        assert(head =~= seq![one[0]]);
        assert(one =~= head + tail);
        layers_go_on::<Y, Y, H, Y, L>(self.lif_step, threshold, rest, head, tail);
        one_current::<Y, Y, H, Y, L>(self.lif_step, threshold, rest, one[0]);
    }

    /// Whether the neurons pass their currents on as spikes, whatever the threshold is.
    pub open spec fn passes_currents_on<Y, H>(&self) -> bool where L: Fn(&Y, &Y, &H) -> (Y, Y) {
        forall|v: Y, c: Y, h: H|
            (#[trigger] value3::<Y, Y, H, (Y, Y), L>(self.lif_step, v, c, h)).1 == c
    }
}

impl<P> TrainableVthSnn<P> {
    /// Time steps pass the weights in order: where neurons pass their currents on, the logits are
    /// the mean over the time steps, each times the first and then the second weight, times the
    /// readout weight, times the gain.
    pub proof fn weights_stand_in_order<Y, H, J, Z, L, M, G, S: Fn(&P) -> H>(
        &self,
        ops: SpikingOps<J, Z, L, M, G>,
        product: spec_fn(Y, P) -> Y,
        x: Seq<Y>,
        softplus: S,
    ) where
        J: Fn(&Y, &P) -> Y,
        Z: Fn(&P) -> Y,
        L: Fn(&Y, &Y, &H) -> (Y, Y),
        M: Fn(&Vec<Y>) -> Y,
        G: Fn(&Y, &P) -> Y,

        requires
            ops.passes_currents_on::<Y, H>(),
        ensures
            self.logits::<Y, H, J, Z, L, M, G, S>(ops, product, x, softplus) == value2::<
                Y,
                P,
                Y,
                G,
            >(
                ops.scale,
                product(
                    seen1::<Y, Y, M>(
                        ops.rate,
                        x.map_values(|y: Y| product(product(y, self.fc1), self.fc2)),
                    ),
                    self.fc3,
                ),
                self.out_gain,
            ),
    {
        let th1 = value1::<P, H, S>(softplus, self.v_th1);
        let th2 = value1::<P, H, S>(softplus, self.v_th2);
        let one = ops.hidden::<P, Y, H>(product, x, self.fc1, th1);
        let two = ops.hidden::<P, Y, H>(product, one, self.fc2, th2);
        assert(two =~= x.map_values(|y: Y| product(product(y, self.fc1), self.fc2)));
    }

    /// Each layer has its own threshold: at a single time step, the spikes of the first layer are
    /// those of its own raw threshold, and those of the second layer, which they drive, of its own.
    pub proof fn layers_have_their_own_thresholds<Y, H, J, Z, L, M, G, S: Fn(&P) -> H>(
        &self,
        ops: SpikingOps<J, Z, L, M, G>,
        product: spec_fn(Y, P) -> Y,
        x: Y,
        softplus: S,
    ) where
        J: Fn(&Y, &P) -> Y,
        Z: Fn(&P) -> Y,
        L: Fn(&Y, &Y, &H) -> (Y, Y),
        M: Fn(&Vec<Y>) -> Y,
        G: Fn(&Y, &P) -> Y,

        ensures
            ({
                let spikes1 = value3::<Y, Y, H, (Y, Y), L>(
                    ops.lif_step,
                    value1::<P, Y, Z>(ops.rest, self.fc1),
                    product(x, self.fc1),
                    value1::<P, H, S>(softplus, self.v_th1),
                ).1;
                let spikes2 = value3::<Y, Y, H, (Y, Y), L>(
                    ops.lif_step,
                    value1::<P, Y, Z>(ops.rest, self.fc2),
                    product(spikes1, self.fc2),
                    value1::<P, H, S>(softplus, self.v_th2),
                ).1;
                self.logits::<Y, H, J, Z, L, M, G, S>(ops, product, seq![x], softplus) == value2::<
                    Y,
                    P,
                    Y,
                    G,
                >(
                    ops.scale,
                    product(seen1::<Y, Y, M>(ops.rate, seq![spikes2]), self.fc3),
                    self.out_gain,
                )
            }),
    {
        let th1 = value1::<P, H, S>(softplus, self.v_th1);
        let th2 = value1::<P, H, S>(softplus, self.v_th2);
        let none = Seq::<Y>::empty();
        let one = ops.hidden::<P, Y, H>(product, seq![x], self.fc1, th1);
        ops.layers_are_causal::<P, Y, H>(product, seq![x], none, self.fc1, th1);
        ops.layers_are_causal::<P, Y, H>(product, one, none, self.fc2, th2);
        assert(seq![x] + none =~= seq![x]);
        assert(one + none =~= one);
        let two = ops.hidden::<P, Y, H>(product, one, self.fc2, th2);
        assert(two =~= seq![two[0]]);
    }

    /// Equal thresholds are one threshold: where both raw thresholds give one threshold, the
    /// clean logits are those of the model that has this threshold in both layers.
    pub proof fn equal_thresholds_are_one<Y, H, J, Z, L, M, G, S: Fn(&P) -> H>(
        &self,
        ops: SpikingOps<J, Z, L, M, G>,
        x: Seq<Y>,
        softplus: S,
        threshold: H,
    ) where
        J: Fn(&Y, &P) -> Y,
        Z: Fn(&P) -> Y,
        L: Fn(&Y, &Y, &H) -> (Y, Y),
        M: Fn(&Vec<Y>) -> Y,
        G: Fn(&Y, &P) -> Y,

        requires
            value1::<P, H, S>(softplus, self.v_th1) == threshold,
            value1::<P, H, S>(softplus, self.v_th2) == threshold,
        ensures
            self.logits::<Y, H, J, Z, L, M, G, S>(ops, ops.clean::<P, Y>(), x, softplus) == (
            SnnModel { fc1: self.fc1, fc2: self.fc2, fc3: self.fc3, out_gain: self.out_gain }
            ).logits::<Y, H, J, Z, L, M, G>(ops, x, threshold),
    {
    }

    /// Noise is a change of the weights: where noise acts on every input as the plain product with
    /// a moved weight does, and resting membranes do not depend on the move, the noisy logits of a
    /// batch are the clean ones of the model with all three weights moved, and its gain and
    /// thresholds as they are.
    pub proof fn noise_moves_the_weights<
        Y,
        H,
        J,
        Z,
        L,
        M,
        G,
        S: Fn(&P) -> H,
        N: Fn(&Y, &P, &Vec<i32>, &i32) -> Y,
    >(
        &self,
        ops: SpikingOps<J, Z, L, M, G>,
        x: Seq<Y>,
        tids: Seq<i32>,
        epoch: i32,
        noise: &N,
        softplus: S,
        moved: spec_fn(P) -> P,
    ) where
        J: Fn(&Y, &P) -> Y,
        Z: Fn(&P) -> Y,
        L: Fn(&Y, &Y, &H) -> (Y, Y),
        M: Fn(&Vec<Y>) -> Y,
        G: Fn(&Y, &P) -> Y,

        requires
            forall|y: Y, w: P|
                #[trigger] seen3::<Y, P, i32, i32, Y, N>(*noise, y, w, tids, epoch) == value2::<
                    Y,
                    P,
                    Y,
                    J,
                >(ops.product, y, moved(w)),
            forall|w: P|
                #[trigger] value1::<P, Y, Z>(ops.rest, moved(w)) == value1::<P, Y, Z>(ops.rest, w),
        ensures
            self.logits::<Y, H, J, Z, L, M, G, S>(
                ops,
                ops.batched::<P, Y, N>(Some(noise), tids, epoch),
                x,
                softplus,
            ) == (TrainableVthSnn {
                fc1: moved(self.fc1),
                fc2: moved(self.fc2),
                fc3: moved(self.fc3),
                out_gain: self.out_gain,
                v_th1: self.v_th1,
                v_th2: self.v_th2,
            }).logits::<Y, H, J, Z, L, M, G, S>(ops, ops.clean::<P, Y>(), x, softplus),
    {
        let noisy = ops.batched::<P, Y, N>(Some(noise), tids, epoch);
        let clean = ops.clean::<P, Y>();
        let th1 = value1::<P, H, S>(softplus, self.v_th1);
        let th2 = value1::<P, H, S>(softplus, self.v_th2);
        assert(Seq::new(x.len(), |i: int| noisy(x[i], self.fc1)) =~= Seq::new(
            x.len(),
            |i: int| clean(x[i], moved(self.fc1)),
        ));
        let one = ops.hidden::<P, Y, H>(noisy, x, self.fc1, th1);
        assert(one == ops.hidden::<P, Y, H>(clean, x, moved(self.fc1), th1));
        assert(Seq::new(one.len(), |i: int| noisy(one[i], self.fc2)) =~= Seq::new(
            one.len(),
            |i: int| clean(one[i], moved(self.fc2)),
        ));
        let two = ops.hidden::<P, Y, H>(noisy, one, self.fc2, th2);
        assert(two == ops.hidden::<P, Y, H>(clean, one, moved(self.fc2), th2));
    }
}

// ---------------------------------------------------------------------------
// Attention
// ---------------------------------------------------------------------------
impl<P> SnnAttentionModel<P> {
    /// Each route has its own dynamics: a model of one route does not depend on the arithmetic of
    /// the other.
    pub proof fn routes_are_apart<X, B, J, R, SP, FX, HO, MF, PO, SC>(
        &self,
        ops: AttentionOps<J, R, SP, FX, HO, MF, PO, SC>,
        hopfield: HO,
        mean_field: MF,
        x: Seq<X>,
    ) where
        J: Fn(&X, &P) -> X,
        R: Fn(&Vec<X>) -> X,
        SP: Fn(&P) -> B,
        FX: Fn(&X) -> B,
        HO: Fn(&X, &X, &X, &B) -> X,
        MF: Fn(&X, &X, &X, &B) -> X,
        PO: Fn(&X) -> X,
        SC: Fn(&X, &P) -> X,

        ensures
            self.route == Route::Hopfield ==> self.outcome::<X, B, J, R, SP, FX, HO, MF, PO, SC>(
                ops,
                x,
            ) == self.outcome::<X, B, J, R, SP, FX, HO, MF, PO, SC>(
                AttentionOps { mean_field, ..ops },
                x,
            ),
            self.route == Route::MeanField ==> self.outcome::<X, B, J, R, SP, FX, HO, MF, PO, SC>(
                ops,
                x,
            ) == self.outcome::<X, B, J, R, SP, FX, HO, MF, PO, SC>(
                AttentionOps { hopfield, ..ops },
                x,
            ),
    {
    }

    /// Whether the weighted values of both routes are the values themselves.
    pub open spec fn attends_to_values<X, B, J, R, SP, FX, HO, MF, PO, SC>(
        ops: AttentionOps<J, R, SP, FX, HO, MF, PO, SC>,
    ) -> bool where HO: Fn(&X, &X, &X, &B) -> X, MF: Fn(&X, &X, &X, &B) -> X {
        &&& forall|q: X, k: X, v: X, beta: B|
            #[trigger] value4::<X, X, X, B, X, HO>(ops.hopfield, q, k, v, beta) == v
        &&& forall|q: X, k: X, v: X, beta: B|
            #[trigger] value4::<X, X, X, B, X, MF>(ops.mean_field, q, k, v, beta) == v
    }

    /// Values are read out: where attention gives the values back, the logits are the mean over
    /// tokens of the rates of the time steps times the value weight, times the readout weight,
    /// times the gain; queries, keys and the temperature do not matter.
    pub proof fn values_are_read_out<X, B, J, R, SP, FX, HO, MF, PO, SC>(
        &self,
        ops: AttentionOps<J, R, SP, FX, HO, MF, PO, SC>,
        x: Seq<X>,
    ) where
        J: Fn(&X, &P) -> X,
        R: Fn(&Vec<X>) -> X,
        SP: Fn(&P) -> B,
        FX: Fn(&X) -> B,
        HO: Fn(&X, &X, &X, &B) -> X,
        MF: Fn(&X, &X, &X, &B) -> X,
        PO: Fn(&X) -> X,
        SC: Fn(&X, &P) -> X,

        requires
            Self::attends_to_values::<X, B, J, R, SP, FX, HO, MF, PO, SC>(ops),
        ensures
            self.outcome::<X, B, J, R, SP, FX, HO, MF, PO, SC>(ops, x) == value2::<X, P, X, SC>(
                ops.scale,
                value2::<X, P, X, J>(
                    ops.product,
                    value1::<X, X, PO>(
                        ops.pool,
                        seen1::<X, X, R>(
                            ops.rate,
                            x.map_values(|y: X| value2::<X, P, X, J>(ops.product, y, self.v)),
                        ),
                    ),
                    self.out,
                ),
                self.out_gain,
            ),
    {
        assert(products::<X, P, X, J>(ops.product, x, self.v) =~= x.map_values(
            |y: X| value2::<X, P, X, J>(ops.product, y, self.v),
        ));
    }

    /// Queries meet keys at the temperature: where the weighted values of both routes are a
    /// function of the queries, the keys and the temperature alone, the logits are those of the
    /// rates of the time steps times the query weight and times the key weight, in that order. The
    /// temperature is the trained one, or goes by the rates of the queries.
    pub proof fn queries_meet_keys<X, B, J, R, SP, FX, HO, MF, PO, SC>(
        &self,
        ops: AttentionOps<J, R, SP, FX, HO, MF, PO, SC>,
        x: Seq<X>,
        met: spec_fn(X, X, B) -> X,
    ) where
        J: Fn(&X, &P) -> X,
        R: Fn(&Vec<X>) -> X,
        SP: Fn(&P) -> B,
        FX: Fn(&X) -> B,
        HO: Fn(&X, &X, &X, &B) -> X,
        MF: Fn(&X, &X, &X, &B) -> X,
        PO: Fn(&X) -> X,
        SC: Fn(&X, &P) -> X,

        requires
            forall|q: X, k: X, v: X, beta: B|
                #[trigger] value4::<X, X, X, B, X, HO>(ops.hopfield, q, k, v, beta) == met(
                    q,
                    k,
                    beta,
                ),
            forall|q: X, k: X, v: X, beta: B|
                #[trigger] value4::<X, X, X, B, X, MF>(ops.mean_field, q, k, v, beta) == met(
                    q,
                    k,
                    beta,
                ),
        ensures
            ({
                let queries = seen1::<X, X, R>(
                    ops.rate,
                    x.map_values(|y: X| value2::<X, P, X, J>(ops.product, y, self.q)),
                );
                let keys = seen1::<X, X, R>(
                    ops.rate,
                    x.map_values(|y: X| value2::<X, P, X, J>(ops.product, y, self.k)),
                );
                let beta = if self.trainable_beta {
                    value1::<P, B, SP>(ops.softplus, self.beta)
                } else {
                    value1::<X, B, FX>(ops.fixed, queries)
                };
                self.outcome::<X, B, J, R, SP, FX, HO, MF, PO, SC>(ops, x) == value2::<
                    X,
                    P,
                    X,
                    SC,
                >(
                    ops.scale,
                    value2::<X, P, X, J>(
                        ops.product,
                        value1::<X, X, PO>(ops.pool, met(queries, keys, beta)),
                        self.out,
                    ),
                    self.out_gain,
                )
            }),
    {
        assert(products::<X, P, X, J>(ops.product, x, self.q) =~= x.map_values(
            |y: X| value2::<X, P, X, J>(ops.product, y, self.q),
        ));
        assert(products::<X, P, X, J>(ops.product, x, self.k) =~= x.map_values(
            |y: X| value2::<X, P, X, J>(ops.product, y, self.k),
        ));
    }
}

} // verus!
