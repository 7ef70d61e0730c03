//! The spiking models: the order of their parameters, their update classes,
//! and the order in which their layers are applied.

use vstd::prelude::*;

use crate::common::{MM_PARAM, PARAM};
use crate::ops::{
    apply1, apply2, computes1, computes2, computes3, copies, made, make, makes, reads1, reads3,
    see1, see3, seen1, seen3, value1, value2,
};
use crate::recurrent::{matmul_3d, run_lif, spikes_of};

verus! {

/// The two-layer spiking classifier.
pub struct SnnModel<P> {
    /// The first hidden weight.
    pub fc1: P,
    /// The second hidden weight.
    pub fc2: P,
    /// The readout weight.
    pub fc3: P,
    /// The readout gain.
    pub out_gain: P,
}

/// Whether three weights are those of a classifier: each takes what the one before it gives.
pub open spec fn weights_fit<P, F: Fn(([usize; 2], usize)) -> P>(
    random: F,
    dims: [usize; 4],
    fc1: P,
    fc2: P,
    fc3: P,
) -> bool {
    &&& made::<([usize; 2], usize), P, F>(random, ([dims[1], dims[0]], dims[0]), fc1)
    &&& made::<([usize; 2], usize), P, F>(random, ([dims[2], dims[1]], dims[1]), fc2)
    &&& made::<([usize; 2], usize), P, F>(random, ([dims[3], dims[2]], dims[2]), fc3)
}

impl<P> SnnModel<P> {
    /// A classifier from `in_dim` inputs over two hidden layers to `num_classes` classes;
    /// `random` makes a weight of a shape and the number of its inputs.
    pub fn new<F: Fn(([usize; 2], usize)) -> P>(
        in_dim: usize,
        hidden1: usize,
        hidden2: usize,
        num_classes: usize,
        random: &F,
        one: P,
    ) -> (model: Self)
        requires
            makes::<([usize; 2], usize), P, F>(*random),
        ensures
            weights_fit::<P, F>(
                *random,
                [in_dim, hidden1, hidden2, num_classes],
                model.fc1,
                model.fc2,
                model.fc3,
            ),
            model.out_gain == one,
    {
        let fc1 = make(random, ([hidden1, in_dim], in_dim));
        let fc2 = make(random, ([hidden2, hidden1], hidden1));
        let fc3 = make(random, ([num_classes, hidden2], hidden2));
        SnnModel { fc1, fc2, fc3, out_gain: one }
    }

    /// The logits of spikes; both hidden layers have one threshold.
    pub open spec fn logits<Y, H, J, Z, L, M, G>(
        &self,
        ops: SpikingOps<J, Z, L, M, G>,
        x: Seq<Y>,
        threshold: H,
    ) -> Y where
        J: Fn(&Y, &P) -> Y,
        Z: Fn(&P) -> Y,
        L: Fn(&Y, &Y, &H) -> (Y, Y),
        M: Fn(&Vec<Y>) -> Y,
        G: Fn(&Y, &P) -> Y,
     {
        ops.classified::<P, Y, H>(
            ops.clean::<P, Y>(),
            x,
            (self.fc1, threshold),
            (self.fc2, threshold),
            (self.fc3, self.out_gain),
        )
    }

    /// The logits of spikes, given step by step; both hidden layers have one threshold.
    pub fn forward<Y, H, J, Z, L, M, G>(
        &self,
        ops: &SpikingOps<J, Z, L, M, G>,
        x: &[Y],
        threshold: &H,
    ) -> (y: Y) where
        J: Fn(&Y, &P) -> Y,
        Z: Fn(&P) -> Y,
        L: Fn(&Y, &Y, &H) -> (Y, Y),
        M: Fn(&Vec<Y>) -> Y,
        G: Fn(&Y, &P) -> Y,

        requires
            ops.valid::<P, Y, H>(),
        ensures
            y == self.logits::<Y, H, J, Z, L, M, G>(*ops, x@, *threshold),
    {
        let first: Vec<Y> = ops.hidden_layer(x, &self.fc1, threshold);
        let second: Vec<Y> = ops.hidden_layer(first.as_slice(), &self.fc2, threshold);
        ops.readout::<P, Y, H>(&second, &self.fc3, &self.out_gain)
    }

    /// The parameters in their trainable order.
    pub open spec fn param_seq(self) -> Seq<P> {
        seq![self.fc1, self.fc2, self.fc3, self.out_gain]
    }

    /// The parameters in their trainable order: the three weights, then the gain.
    pub fn params<C: Fn(&P) -> P>(&self, copy: &C) -> (params: Vec<P>)
        requires
            copies::<P, C>(*copy),
        ensures
            params@ == self.param_seq(),
    {
        let mut params: Vec<P> = Vec::with_capacity(4);
        params.push(apply1(copy, &self.fc1));
        params.push(apply1(copy, &self.fc2));
        params.push(apply1(copy, &self.fc3));
        params.push(apply1(copy, &self.out_gain));
        proof {
            assert(params@ =~= self.param_seq());
        }
        params
    }

    /// The model of a list of parameters in their trainable order; what follows is dropped.
    pub fn write_params(params: Vec<P>) -> (model: Self)
        requires
            params@.len() >= 4,
        ensures
            model.param_seq() == params@.take(4),
    {
        let ghost given = params@;
        let mut params = params;
        params.truncate(4);
        let out_gain: P = params.swap_remove(3);
        let fc3: P = params.swap_remove(2);
        let fc2: P = params.swap_remove(1);
        let fc1: P = params.swap_remove(0);
        let model = SnnModel { fc1, fc2, fc3, out_gain };
        proof {
            assert(model.param_seq() =~= given.take(4));
        }
        model
    }

    /// The update classes, in the order of the parameters.
    pub fn es_map(&self) -> (map: Vec<i32>)
        ensures
            map@ == seq![MM_PARAM, MM_PARAM, MM_PARAM, PARAM],
            map@.len() == self.param_seq().len(),
    {
        let mut map: Vec<i32> = Vec::with_capacity(4);
        map.push(MM_PARAM);
        map.push(MM_PARAM);
        map.push(MM_PARAM);
        map.push(PARAM);
        proof {
            assert(map@ =~= seq![MM_PARAM, MM_PARAM, MM_PARAM, PARAM]);
        }
        map
    }
}

/// The two-layer spiking classifier with trainable thresholds.
pub struct TrainableVthSnn<P> {
    /// The first hidden weight.
    pub fc1: P,
    /// The second hidden weight.
    pub fc2: P,
    /// The readout weight.
    pub fc3: P,
    /// The readout gain.
    pub out_gain: P,
    /// The threshold of the first hidden layer.
    pub v_th1: P,
    /// The threshold of the second hidden layer.
    pub v_th2: P,
}

impl<P> TrainableVthSnn<P> {
    /// A classifier from `in_dim` inputs over two hidden layers to `num_classes` classes;
    /// `random` makes a weight of a shape and the number of its inputs. The raw thresholds are
    /// those that give the wanted threshold.
    pub fn new<F: Fn(([usize; 2], usize)) -> P>(
        in_dim: usize,
        hidden1: usize,
        hidden2: usize,
        num_classes: usize,
        random: &F,
        one: P,
        raw_vth: (P, P),
    ) -> (model: Self)
        requires
            makes::<([usize; 2], usize), P, F>(*random),
        ensures
            weights_fit::<P, F>(
                *random,
                [in_dim, hidden1, hidden2, num_classes],
                model.fc1,
                model.fc2,
                model.fc3,
            ),
            model.out_gain == one,
            model.v_th1 == raw_vth.0,
            model.v_th2 == raw_vth.1,
    {
        let fc1 = make(random, ([hidden1, in_dim], in_dim));
        let fc2 = make(random, ([hidden2, hidden1], hidden1));
        let fc3 = make(random, ([num_classes, hidden2], hidden2));
        TrainableVthSnn { fc1, fc2, fc3, out_gain: one, v_th1: raw_vth.0, v_th2: raw_vth.1 }
    }

    /// The logits of spikes where weights act by `product`; `softplus` makes the threshold of each
    /// hidden layer of its raw threshold.
    pub open spec fn logits<Y, H, J, Z, L, M, G, S: Fn(&P) -> H>(
        &self,
        ops: SpikingOps<J, Z, L, M, G>,
        product: spec_fn(Y, P) -> Y,
        x: Seq<Y>,
        softplus: S,
    ) -> Y where
        J: Fn(&Y, &P) -> Y,
        Z: Fn(&P) -> Y,
        L: Fn(&Y, &Y, &H) -> (Y, Y),
        M: Fn(&Vec<Y>) -> Y,
        G: Fn(&Y, &P) -> Y,
     {
        ops.classified::<P, Y, H>(
            product,
            x,
            (self.fc1, value1::<P, H, S>(softplus, self.v_th1)),
            (self.fc2, value1::<P, H, S>(softplus, self.v_th2)),
            (self.fc3, self.out_gain),
        )
    }

    /// The logits of spikes, given step by step; `softplus` makes the threshold of each hidden
    /// layer of its raw threshold.
    pub fn forward<Y, H, J, Z, L, M, G, S: Fn(&P) -> H>(
        &self,
        ops: &SpikingOps<J, Z, L, M, G>,
        x: &[Y],
        softplus: &S,
    ) -> (y: Y) where
        J: Fn(&Y, &P) -> Y,
        Z: Fn(&P) -> Y,
        L: Fn(&Y, &Y, &H) -> (Y, Y),
        M: Fn(&Vec<Y>) -> Y,
        G: Fn(&Y, &P) -> Y,

        requires
            ops.valid::<P, Y, H>(),
            computes1::<P, H, S>(*softplus),
        ensures
            y == self.logits::<Y, H, J, Z, L, M, G, S>(
                *ops,
                ops.clean::<P, Y>(),
                x@,
                *softplus,
            ),
    {
        let th1: H = apply1(softplus, &self.v_th1);
        let th2: H = apply1(softplus, &self.v_th2);
        let first: Vec<Y> = ops.hidden_layer(x, &self.fc1, &th1);
        let second: Vec<Y> = ops.hidden_layer(first.as_slice(), &self.fc2, &th2);
        ops.readout::<P, Y, H>(&second, &self.fc3, &self.out_gain)
    }

    /// The logits of a batch of spikes, given step by step. With `noise` a weight acts by `noise`,
    /// which also gets the threads and the epoch, else by the plain product.
    pub fn forward_batched<
        Y,
        H,
        J,
        Z,
        L,
        M,
        G,
        S: Fn(&P) -> H,
        N: Fn(&Y, &P, &Vec<i32>, &i32) -> Y,
    >(
        &self,
        ops: &SpikingOps<J, Z, L, M, G>,
        x: &[Y],
        tids: &Vec<i32>,
        epoch: i32,
        noise: Option<&N>,
        softplus: &S,
    ) -> (y: Y) where
        J: Fn(&Y, &P) -> Y,
        Z: Fn(&P) -> Y,
        L: Fn(&Y, &Y, &H) -> (Y, Y),
        M: Fn(&Vec<Y>) -> Y,
        G: Fn(&Y, &P) -> Y,

        requires
            ops.valid::<P, Y, H>(),
            computes1::<P, H, S>(*softplus),
            noise is Some ==> reads3::<Y, P, i32, i32, Y, N>(*noise->Some_0),
        ensures
            y == self.logits::<Y, H, J, Z, L, M, G, S>(
                *ops,
                ops.batched::<P, Y, N>(noise, tids@, epoch),
                x@,
                *softplus,
            ),
    {
        let th1: H = apply1(softplus, &self.v_th1);
        let th2: H = apply1(softplus, &self.v_th2);
        let first: Vec<Y> = ops.hidden_batched(x, &self.fc1, &th1, tids, epoch, noise);
        let second: Vec<Y> = ops.hidden_batched(
            first.as_slice(),
            &self.fc2,
            &th2,
            tids,
            epoch,
            noise,
        );
        let rates: Y = see1(&ops.rate, &second);
        let out: Y = ops.product_batched(&rates, &self.fc3, tids, epoch, noise);
        apply2(&ops.scale, &out, &self.out_gain)
    }

    /// The parameters in their trainable order.
    pub open spec fn param_seq(self) -> Seq<P> {
        seq![self.fc1, self.fc2, self.fc3, self.out_gain, self.v_th1, self.v_th2]
    }

    /// The parameters in their trainable order: the three weights, the gain, the thresholds.
    pub fn params<C: Fn(&P) -> P>(&self, copy: &C) -> (params: Vec<P>)
        requires
            copies::<P, C>(*copy),
        ensures
            params@ == self.param_seq(),
    {
        let mut params: Vec<P> = Vec::with_capacity(6);
        params.push(apply1(copy, &self.fc1));
        params.push(apply1(copy, &self.fc2));
        params.push(apply1(copy, &self.fc3));
        params.push(apply1(copy, &self.out_gain));
        params.push(apply1(copy, &self.v_th1));
        params.push(apply1(copy, &self.v_th2));
        proof {
            assert(params@ =~= self.param_seq());
        }
        params
    }

    /// The model of a list of parameters in their trainable order; what follows is dropped.
    pub fn write_params(params: Vec<P>) -> (model: Self)
        requires
            params@.len() >= 6,
        ensures
            model.param_seq() == params@.take(6),
    {
        let ghost given = params@;
        let mut params = params;
        params.truncate(6);
        let v_th2: P = params.swap_remove(5);
        let v_th1: P = params.swap_remove(4);
        let out_gain: P = params.swap_remove(3);
        let fc3: P = params.swap_remove(2);
        let fc2: P = params.swap_remove(1);
        let fc1: P = params.swap_remove(0);
        let model = TrainableVthSnn { fc1, fc2, fc3, out_gain, v_th1, v_th2 };
        proof {
            assert(model.param_seq() =~= given.take(6));
        }
        model
    }

    /// The update classes, in the order of the parameters.
    pub fn es_map(&self) -> (map: Vec<i32>)
        ensures
            map@ == seq![MM_PARAM, MM_PARAM, MM_PARAM, PARAM, PARAM, PARAM],
            map@.len() == self.param_seq().len(),
    {
        let mut map: Vec<i32> = Vec::with_capacity(6);
        map.push(MM_PARAM);
        map.push(MM_PARAM);
        map.push(MM_PARAM);
        map.push(PARAM);
        map.push(PARAM);
        map.push(PARAM);
        proof {
            assert(map@ =~= seq![MM_PARAM, MM_PARAM, MM_PARAM, PARAM, PARAM, PARAM]);
        }
        map
    }
}

/// Writing back the parameters of a model gives the model.
pub proof fn params_round_trip<P>(a: SnnModel<P>, b: SnnModel<P>)
    requires
        b.param_seq() == a.param_seq().take(4),
    ensures
        a == b,
{
    assert(a.param_seq().take(4) =~= a.param_seq());
    assert(b.param_seq()[0] == b.fc1);
    assert(b.param_seq()[1] == b.fc2);
    assert(b.param_seq()[2] == b.fc3);
    assert(b.param_seq()[3] == b.out_gain);
    assert(a.param_seq()[0] == a.fc1);
    assert(a.param_seq()[1] == a.fc2);
    assert(a.param_seq()[2] == a.fc3);
    assert(a.param_seq()[3] == a.out_gain);
}

/// Writing back the parameters of a model with trainable thresholds gives the model.
pub proof fn trainable_params_round_trip<P>(a: TrainableVthSnn<P>, b: TrainableVthSnn<P>)
    requires
        b.param_seq() == a.param_seq().take(6),
    ensures
        a == b,
{
    assert(a.param_seq().take(6) =~= a.param_seq());
    assert(b.param_seq()[0] == b.fc1);
    assert(b.param_seq()[1] == b.fc2);
    assert(b.param_seq()[2] == b.fc3);
    assert(b.param_seq()[3] == b.out_gain);
    assert(b.param_seq()[4] == b.v_th1);
    assert(b.param_seq()[5] == b.v_th2);
    assert(a.param_seq()[0] == a.fc1);
    assert(a.param_seq()[1] == a.fc2);
    assert(a.param_seq()[2] == a.fc3);
    assert(a.param_seq()[3] == a.out_gain);
    assert(a.param_seq()[4] == a.v_th1);
    assert(a.param_seq()[5] == a.v_th2);
}

/// A clean batch is the plain pass: without noise the logits of a batch are those of the plain
/// forward pass, whatever the threads and the epoch are.
pub proof fn clean_batch_is_forward<P, Y, H, J, Z, L, M, G, S: Fn(&P) -> H, N>(
    model: TrainableVthSnn<P>,
    ops: SpikingOps<J, Z, L, M, G>,
    x: Seq<Y>,
    tids: Seq<i32>,
    epoch: i32,
    softplus: S,
) where
    J: Fn(&Y, &P) -> Y,
    Z: Fn(&P) -> Y,
    L: Fn(&Y, &Y, &H) -> (Y, Y),
    M: Fn(&Vec<Y>) -> Y,
    G: Fn(&Y, &P) -> Y,
    N: Fn(&Y, &P, &Vec<i32>, &i32) -> Y,

    ensures
        model.logits::<Y, H, J, Z, L, M, G, S>(
            ops,
            ops.batched::<P, Y, N>(None, tids, epoch),
            x,
            softplus,
        ) == model.logits::<Y, H, J, Z, L, M, G, S>(ops, ops.clean::<P, Y>(), x, softplus),
{
}

/// The arithmetic of a spiking classifier.
pub struct SpikingOps<J, Z, L, M, G> {
    /// The product of a time step, or of rates, with a weight.
    pub product: J,
    /// The resting membrane behind a weight.
    pub rest: Z,
    /// The next membrane and the spikes, of a membrane, a current and a threshold.
    pub lif_step: L,
    /// The mean firing rates over time.
    pub rate: M,
    /// Logits times the gain.
    pub scale: G,
}

impl<J, Z, L, M, G> SpikingOps<J, Z, L, M, G> {
    /// Each operation gives one result for each argument, whatever holds the time steps.
    pub open spec fn valid<P, Y, H>(&self) -> bool where
        J: Fn(&Y, &P) -> Y,
        Z: Fn(&P) -> Y,
        L: Fn(&Y, &Y, &H) -> (Y, Y),
        M: Fn(&Vec<Y>) -> Y,
        G: Fn(&Y, &P) -> Y,
     {
        &&& computes2::<Y, P, Y, J>(self.product)
        &&& computes1::<P, Y, Z>(self.rest)
        &&& computes3::<Y, Y, H, (Y, Y), L>(self.lif_step)
        &&& reads1::<Y, Y, M>(self.rate)
        &&& computes2::<Y, P, Y, G>(self.scale)
    }

    /// The plain product with a weight.
    pub open spec fn clean<P, Y>(&self) -> spec_fn(Y, P) -> Y where J: Fn(&Y, &P) -> Y {
        |x: Y, weight: P| value2::<Y, P, Y, J>(self.product, x, weight)
    }

    /// The product with a weight in a batch: that of `noise`, where there is one.
    pub open spec fn batched<P, Y, N: Fn(&Y, &P, &Vec<i32>, &i32) -> Y>(
        &self,
        noise: Option<&N>,
        tids: Seq<i32>,
        epoch: i32,
    ) -> spec_fn(Y, P) -> Y where J: Fn(&Y, &P) -> Y {
        match noise {
            Some(f) => |x: Y, weight: P|
                seen3::<Y, P, i32, i32, Y, N>(*f, x, weight, tids, epoch),
            None => self.clean::<P, Y>(),
        }
    }

    /// The spikes of a hidden layer: each time step times the weight drives membranes that start
    /// at rest.
    pub open spec fn hidden<P, Y, H>(
        &self,
        product: spec_fn(Y, P) -> Y,
        x: Seq<Y>,
        weight: P,
        threshold: H,
    ) -> Seq<Y> where Z: Fn(&P) -> Y, L: Fn(&Y, &Y, &H) -> (Y, Y) {
        spikes_of::<Y, Y, H, Y, L>(
            self.lif_step,
            threshold,
            value1::<P, Y, Z>(self.rest, weight),
            Seq::new(x.len(), |i: int| product(x[i], weight)),
        )
    }

    /// The logits of spikes: two hidden layers, each a weight and a threshold, then the mean rates
    /// times the readout weight, times the gain.
    pub open spec fn classified<P, Y, H>(
        &self,
        product: spec_fn(Y, P) -> Y,
        x: Seq<Y>,
        first: (P, H),
        second: (P, H),
        readout: (P, P),
    ) -> Y where
        Z: Fn(&P) -> Y,
        L: Fn(&Y, &Y, &H) -> (Y, Y),
        M: Fn(&Vec<Y>) -> Y,
        G: Fn(&Y, &P) -> Y,
     {
        let spikes1 = self.hidden::<P, Y, H>(product, x, first.0, first.1);
        let spikes2 = self.hidden::<P, Y, H>(product, spikes1, second.0, second.1);
        value2::<Y, P, Y, G>(
            self.scale,
            product(seen1::<Y, Y, M>(self.rate, spikes2), readout.0),
            readout.1,
        )
    }

    /// Runs a hidden layer.
    fn hidden_layer<P, Y, H>(&self, x: &[Y], weight: &P, threshold: &H) -> (spikes: Vec<Y>) where
        J: Fn(&Y, &P) -> Y,
        Z: Fn(&P) -> Y,
        L: Fn(&Y, &Y, &H) -> (Y, Y),
        M: Fn(&Vec<Y>) -> Y,
        G: Fn(&Y, &P) -> Y,

        requires
            self.valid::<P, Y, H>(),
        ensures
            spikes@ == self.hidden::<P, Y, H>(self.clean::<P, Y>(), x@, *weight, *threshold),
    {
        let currents: Vec<Y> = matmul_3d(&self.product, x, weight);
        proof {
            let product = self.clean::<P, Y>();
            assert(currents@ =~= Seq::new(x@.len(), |i: int| product(x@[i], *weight)));
        }
        let v0: Y = apply1(&self.rest, weight);
        run_lif(&self.lif_step, threshold, v0, currents.as_slice())
    }

    /// Reads the logits out.
    fn readout<P, Y, H>(&self, spikes: &Vec<Y>, weight: &P, gain: &P) -> (y: Y) where
        J: Fn(&Y, &P) -> Y,
        Z: Fn(&P) -> Y,
        L: Fn(&Y, &Y, &H) -> (Y, Y),
        M: Fn(&Vec<Y>) -> Y,
        G: Fn(&Y, &P) -> Y,

        requires
            self.valid::<P, Y, H>(),
        ensures
            y == value2::<Y, P, Y, G>(
                self.scale,
                value2::<Y, P, Y, J>(
                    self.product,
                    seen1::<Y, Y, M>(self.rate, spikes@),
                    *weight,
                ),
                *gain,
            ),
    {
        let rates: Y = see1(&self.rate, spikes);
        let out: Y = apply2(&self.product, &rates, weight);
        apply2(&self.scale, &out, gain)
    }

    /// A product with a weight in a batch.
    fn product_batched<P, Y, N: Fn(&Y, &P, &Vec<i32>, &i32) -> Y>(
        &self,
        x: &Y,
        weight: &P,
        tids: &Vec<i32>,
        epoch: i32,
        noise: Option<&N>,
    ) -> (y: Y) where J: Fn(&Y, &P) -> Y
        requires
            computes2::<Y, P, Y, J>(self.product),
            noise is Some ==> reads3::<Y, P, i32, i32, Y, N>(*noise->Some_0),
        ensures
            y == (self.batched::<P, Y, N>(noise, tids@, epoch))(*x, *weight),
    {
        match noise {
            Some(f) => see3(f, x, weight, tids, &epoch),
            None => apply2(&self.product, x, weight),
        }
    }

    /// Runs a hidden layer on a batch.
    fn hidden_batched<P, Y, H, N: Fn(&Y, &P, &Vec<i32>, &i32) -> Y>(
        &self,
        x: &[Y],
        weight: &P,
        threshold: &H,
        tids: &Vec<i32>,
        epoch: i32,
        noise: Option<&N>,
    ) -> (spikes: Vec<Y>) where
        J: Fn(&Y, &P) -> Y,
        Z: Fn(&P) -> Y,
        L: Fn(&Y, &Y, &H) -> (Y, Y),
        M: Fn(&Vec<Y>) -> Y,
        G: Fn(&Y, &P) -> Y,

        requires
            self.valid::<P, Y, H>(),
            noise is Some ==> reads3::<Y, P, i32, i32, Y, N>(*noise->Some_0),
        ensures
            spikes@ == self.hidden::<P, Y, H>(
                self.batched::<P, Y, N>(noise, tids@, epoch),
                x@,
                *weight,
                *threshold,
            ),
    {
        let ghost product = self.batched::<P, Y, N>(noise, tids@, epoch);
        let mut currents: Vec<Y> = Vec::with_capacity(x.len());
        let mut i: usize = 0;
        while i < x.len()
            invariant
                self.valid::<P, Y, H>(),
                noise is Some ==> reads3::<Y, P, i32, i32, Y, N>(*noise->Some_0),
                product == self.batched::<P, Y, N>(noise, tids@, epoch),
                i <= x@.len(),
                currents@.len() == i,
                forall|k: int| 0 <= k < i ==> #[trigger] currents@[k] == product(x@[k], *weight),
            decreases x@.len() - i,
        {
            currents.push(self.product_batched(&x[i], weight, tids, epoch, noise));
            i = i + 1;
        }
        proof {
            assert(currents@ =~= Seq::new(x@.len(), |k: int| product(x@[k], *weight)));
        }
        let v0: Y = apply1(&self.rest, weight);
        run_lif(&self.lif_step, threshold, v0, currents.as_slice())
    }
}

} // verus!
