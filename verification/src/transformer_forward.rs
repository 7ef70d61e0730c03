//! The forward pass of the spiking transformer: which weight and which noise
//! each product uses, and how the parts are put together.

use vstd::prelude::*;

use crate::ops::{
    apply1, apply2, apply3, apply4, computes1, computes2, computes3, computes4, copies, value1,
    value2, value3, value4,
};
use crate::snn_transformer::{
    block_start, noise_slot, slot_from, Block, SnnTransformer, TransformerDims,
};

verus! {

/// The noise of a forward pass.
pub struct TrainNoise<'a, N, X, Y> {
    /// The noise of the parameters that `mm_indices` names.
    pub lora: &'a [N],
    /// The indices of the noised matrix parameters.
    pub mm_indices: &'a [usize],
    /// The noise of the position embedding.
    pub pos_emb: Option<X>,
    /// The noise of the readout gain.
    pub out_gain: Option<Y>,
    /// The noise of the attention temperature.
    pub beta: Option<Y>,
}

impl<'a, N, X, Y> TrainNoise<'a, N, X, Y> {
    /// Every noised parameter has its noise.
    pub open spec fn valid(&self) -> bool {
        self.mm_indices@.len() <= self.lora@.len()
    }

    /// No noise.
    pub open spec fn is_clean(&self) -> bool {
        &&& self.mm_indices@.len() == 0
        &&& self.pos_emb is None
        &&& self.out_gain is None
        &&& self.beta is None
    }
}

/// A forward pass: a model, its noise, and the arithmetic.
pub struct ForwardPass<'a, P, N, X, Y, J, K, A, R, BL, PL, LI, SH, SP, AT, JN, SW, PO, SC, CP> {
    /// The model.
    pub model: &'a SnnTransformer<P>,
    /// The noise.
    pub noise: &'a TrainNoise<'a, N, X, Y>,
    /// Zero, of the shape of the encoded tokens.
    pub zero: X,
    /// A product with a weight.
    pub product: J,
    /// A product and its input, with the noise of the weight added to the product.
    pub perturb: K,
    /// A sum.
    pub add: A,
    /// The rates of a sum of currents over a number of time steps.
    pub rate: R,
    /// The mean of three rates.
    pub blend: BL,
    /// Tokens with the position embedding added.
    pub place: PL,
    /// A scalar parameter.
    pub lift: LI,
    /// A scalar parameter with its noise added.
    pub shift: SH,
    /// The attention temperature of its raw parameter.
    pub softplus: SP,
    /// Attention of queries, keys and values at a temperature.
    pub attend: AT,
    /// Two outputs side by side.
    pub join: JN,
    /// The activation of the feed-forward layer.
    pub swish: SW,
    /// The mean over tokens.
    pub pool: PO,
    /// Logits times the gain.
    pub scale: SC,
    /// A copy.
    pub copy: CP,
}

impl<'a, P, N, X, Y, B, Z, J, K, A, R, BL, PL, LI, SH, SP, AT, JN, SW, PO, SC, CP> ForwardPass<
    'a,
    P,
    N,
    X,
    Y,
    J,
    K,
    A,
    R,
    BL,
    PL,
    LI,
    SH,
    SP,
    AT,
    JN,
    SW,
    PO,
    SC,
    CP,
> where
    J: Fn(&X, &P) -> X,
    K: Fn(&X, &X, &N) -> X,
    A: Fn(&X, &X) -> X,
    R: Fn(&X, &usize) -> X,
    BL: Fn(&X, &X, &X) -> X,
    PL: Fn(&X, &P) -> X,
    LI: Fn(&P) -> Y,
    SH: Fn(&P, &Y) -> Y,
    SP: Fn(&Y) -> B,
    AT: Fn(&X, &X, &X, &B) -> X,
    JN: Fn(&X, &X) -> X,
    SW: Fn(&X) -> X,
    PO: Fn(&X) -> X,
    SC: Fn(&X, &Y) -> Z,
    CP: Fn(&X) -> X,
 {
    /// Each operation gives one result for each argument, the model has the weights that its
    /// dimensions say, and every noised parameter has its noise.
    pub open spec fn valid(&self) -> bool {
        &&& self.model.valid()
        &&& self.model.dims.num_heads > 0
        &&& self.model.dims.fits()
        &&& self.noise.valid()
        &&& computes2::<X, P, X, J>(self.product)
        &&& computes3::<X, X, N, X, K>(self.perturb)
        &&& computes2::<X, X, X, A>(self.add)
        &&& computes2::<X, usize, X, R>(self.rate)
        &&& computes3::<X, X, X, X, BL>(self.blend)
        &&& computes2::<X, P, X, PL>(self.place)
        &&& computes1::<P, Y, LI>(self.lift)
        &&& computes2::<P, Y, Y, SH>(self.shift)
        &&& computes1::<Y, B, SP>(self.softplus)
        &&& computes4::<X, X, X, B, X, AT>(self.attend)
        &&& computes2::<X, X, X, JN>(self.join)
        &&& computes1::<X, X, SW>(self.swish)
        &&& computes1::<X, X, PO>(self.pool)
        &&& computes2::<X, Y, Z, SC>(self.scale)
        &&& copies::<X, CP>(self.copy)
    }

    /// The product of `x` with the parameter at index `idx`, with the noise that stands at the
    /// slot of this index, if there is one.
    pub open spec fn noisy(&self, idx: int, x: X, w: P) -> X {
        let base = value2::<X, P, X, J>(self.product, x, w);
        match slot_from(self.noise.mm_indices@, idx as usize, 0) {
            Some(k) => value3::<X, X, N, X, K>(self.perturb, base, x, self.noise.lora@[k]),
            None => base,
        }
    }

    /// Multiplies with the parameter at index `idx` and adds its noise.
    fn nn(&self, idx: usize, x: &X, w: &P) -> (y: X)
        requires
            self.valid(),
        ensures
            y == self.noisy(idx as int, *x, *w),
    {
        let base: X = apply2(&self.product, x, w);
        match noise_slot(self.noise.mm_indices, idx) {
            Some(k) => apply3(&self.perturb, &base, x, &self.noise.lora[k]),
            None => base,
        }
    }

    /// The noisy products of the first `n` time steps with an input weight, added up.
    pub open spec fn summed(&self, idx: int, w: P, steps: Seq<X>, n: nat) -> X
        decreases n,
    {
        if n == 0 {
            self.zero
        } else {
            value2::<X, X, X, A>(
                self.add,
                self.summed(idx, w, steps, (n - 1) as nat),
                self.noisy(idx, steps[n - 1], w),
            )
        }
    }

    /// The rates of one of the three input projections.
    pub open spec fn rates(&self, idx: int, w: P, steps: Seq<X>) -> X {
        value2::<X, usize, X, R>(
            self.rate,
            self.summed(idx, w, steps, steps.len()),
            steps.len() as usize,
        )
    }

    /// Projects all time steps with an input weight and makes rates of the sum.
    fn input_rates(&self, idx: usize, w: &P, steps: &[X]) -> (r: X)
        requires
            self.valid(),
        ensures
            r == self.rates(idx as int, *w, steps@),
    {
        let t: usize = steps.len();
        let mut sum: X = apply1(&self.copy, &self.zero);
        let mut i: usize = 0;
        while i < t
            invariant
                self.valid(),
                t == steps@.len(),
                i <= t,
                sum == self.summed(idx as int, *w, steps@, i as nat),
            decreases t - i,
        {
            let current: X = self.nn(idx, &steps[i], w);
            sum = apply2(&self.add, &sum, &current);
            i = i + 1;
        }
        apply2(&self.rate, &sum, &t)
    }

    /// The encoded tokens: the mean of the rates of the three input projections.
    pub open spec fn encoded(&self, steps: Seq<X>) -> X {
        value3::<X, X, X, X, BL>(
            self.blend,
            self.rates(0, self.model.in_q, steps),
            self.rates(1, self.model.in_k, steps),
            self.rates(2, self.model.in_v, steps),
        )
    }

    /// Encodes the tokens.
    fn encode(&self, steps: &[X]) -> (x: X)
        requires
            self.valid(),
        ensures
            x == self.encoded(steps@),
    {
        let q: X = self.input_rates(0, &self.model.in_q, steps);
        let k: X = self.input_rates(1, &self.model.in_k, steps);
        let v: X = self.input_rates(2, &self.model.in_v, steps);
        apply3(&self.blend, &q, &k, &v)
    }

    /// Tokens with the position embedding and its noise.
    pub open spec fn placed(&self, x: X) -> X {
        let y = value2::<X, P, X, PL>(self.place, x, self.model.pos_emb);
        match self.noise.pos_emb {
            Some(noise) => value2::<X, X, X, A>(self.add, y, noise),
            None => y,
        }
    }

    /// A scalar parameter with its noise, if it has any.
    pub open spec fn noisy_scalar(&self, p: P, noise: Option<Y>) -> Y {
        match noise {
            Some(n) => value2::<P, Y, Y, SH>(self.shift, p, n),
            None => value1::<P, Y, LI>(self.lift, p),
        }
    }

    /// Adds the noise of a scalar parameter.
    fn scalar(&self, p: &P, noise: &Option<Y>) -> (y: Y)
        requires
            self.valid(),
        ensures
            y == self.noisy_scalar(*p, *noise),
    {
        match noise {
            Some(n) => apply2(&self.shift, p, n),
            None => apply1(&self.lift, p),
        }
    }

    /// The attention temperature.
    pub open spec fn temperature(&self) -> B {
        value1::<Y, B, SP>(self.softplus, self.noisy_scalar(self.model.beta, self.noise.beta))
    }

    /// The output of head `h` of block `b`: each weight with the noise of its own index.
    pub open spec fn head_out(&self, b: int, h: int, x: X) -> X {
        let heads = self.model.dims.num_heads as int;
        let base = block_start(heads, b);
        let block = self.model.blocks@[b];
        value4::<X, X, X, B, X, AT>(
            self.attend,
            self.noisy(base + h, x, block.q@[h]),
            self.noisy(base + heads + h, x, block.k@[h]),
            self.noisy(base + 2 * heads + h, x, block.v@[h]),
            self.temperature(),
        )
    }

    /// The outputs of the first `n` heads of block `b`, side by side.
    pub open spec fn joined(&self, b: int, x: X, n: nat) -> X
        decreases n,
    {
        if n <= 1 {
            self.head_out(b, 0, x)
        } else {
            value2::<X, X, X, JN>(
                self.join,
                self.joined(b, x, (n - 1) as nat),
                self.head_out(b, n - 1, x),
            )
        }
    }

    /// Runs one head.
    fn head(&self, b: usize, h: usize, x: &X, beta: &B) -> (y: X)
        requires
            self.valid(),
            b < self.model.blocks@.len(),
            h < self.model.dims.num_heads,
            *beta == self.temperature(),
        ensures
            y == self.head_out(b as int, h as int, *x),
    {
        let block: &Block<P> = &self.model.blocks[b];
        let dims: TransformerDims = self.model.dims;
        let (iq, ik, iv): (usize, usize, usize) = dims.head_indices(b, h);
        let q: X = self.nn(iq, x, &block.q[h]);
        let k: X = self.nn(ik, x, &block.k[h]);
        let v: X = self.nn(iv, x, &block.v[h]);
        apply4(&self.attend, &q, &k, &v, beta)
    }

    /// What block `b` makes of its tokens: attention and feed-forward, each added to its input.
    pub open spec fn block_out(&self, b: int, x: X) -> X {
        let heads = self.model.dims.num_heads as int;
        let tail = block_start(heads, b) + 3 * heads;
        let block = self.model.blocks@[b];
        let attention = self.noisy(tail, self.joined(b, x, heads as nat), block.o);
        let y = value2::<X, X, X, A>(self.add, x, attention);
        let inner = value1::<X, X, SW>(self.swish, self.noisy(tail + 1, y, block.ff1));
        value2::<X, X, X, A>(self.add, y, self.noisy(tail + 2, inner, block.ff2))
    }

    /// Runs one block.
    fn run_block(&self, b: usize, x: &X, beta: &B) -> (y: X)
        requires
            self.valid(),
            b < self.model.blocks@.len(),
            *beta == self.temperature(),
        ensures
            y == self.block_out(b as int, *x),
    {
        let heads: usize = self.model.dims.num_heads;
        let mut joined: X = self.head(b, 0, x, beta);
        let mut h: usize = 1;
        while h < heads
            invariant
                self.valid(),
                heads == self.model.dims.num_heads,
                1 <= h <= heads,
                b < self.model.blocks@.len(),
                *beta == self.temperature(),
                joined == self.joined(b as int, *x, h as nat),
            decreases heads - h,
        {
            let out: X = self.head(b, h, x, beta);
            joined = apply2(&self.join, &joined, &out);
            h = h + 1;
        }
        let dims: TransformerDims = self.model.dims;
        let (io, i1, i2): (usize, usize, usize) = dims.tail_indices(b);
        let block: &Block<P> = &self.model.blocks[b];
        let attention: X = self.nn(io, &joined, &block.o);
        let y: X = apply2(&self.add, x, &attention);
        let ff1: X = self.nn(i1, &y, &block.ff1);
        let inner: X = apply1(&self.swish, &ff1);
        let ff2: X = self.nn(i2, &inner, &block.ff2);
        apply2(&self.add, &y, &ff2)
    }

    /// The tokens behind the first `n` blocks.
    pub open spec fn tokens_after(&self, steps: Seq<X>, n: nat) -> X
        decreases n,
    {
        if n == 0 {
            self.placed(self.encoded(steps))
        } else {
            self.block_out(n - 1, self.tokens_after(steps, (n - 1) as nat))
        }
    }

    /// The logits: the mean of the last tokens times the readout weight, times the gain.
    pub open spec fn logits(&self, steps: Seq<X>) -> Z {
        let blocks = self.model.blocks@.len();
        let pooled = value1::<X, X, PO>(self.pool, self.tokens_after(steps, blocks));
        let out = block_start(self.model.dims.num_heads as int, blocks as int);
        value2::<X, Y, Z, SC>(
            self.scale,
            self.noisy(out, pooled, self.model.out),
            self.noisy_scalar(self.model.out_gain, self.noise.out_gain),
        )
    }

    /// The logits of a batch, given step by step.
    pub fn forward_batched(&self, steps: &[X]) -> (logits: Z)
        requires
            self.valid(),
        ensures
            logits == self.logits(steps@),
    {
        let encoded: X = self.encode(steps);
        let mut x: X = apply2(&self.place, &encoded, &self.model.pos_emb);
        if let Some(noise) = &self.noise.pos_emb {
            x = apply2(&self.add, &x, noise);
        }
        let raw: Y = self.scalar(&self.model.beta, &self.noise.beta);
        let beta: B = apply1(&self.softplus, &raw);
        let blocks: usize = self.model.blocks.len();
        let mut b: usize = 0;
        while b < blocks
            invariant
                self.valid(),
                blocks == self.model.blocks@.len(),
                b <= blocks,
                beta == self.temperature(),
                x == self.tokens_after(steps@, b as nat),
            decreases blocks - b,
        {
            x = self.run_block(b, &x, &beta);
            b = b + 1;
        }
        let pooled: X = apply1(&self.pool, &x);
        let dims: TransformerDims = self.model.dims;
        let out: X = self.nn(dims.out_param_index(), &pooled, &self.model.out);
        let gain: Y = self.scalar(&self.model.out_gain, &self.noise.out_gain);
        apply2(&self.scale, &out, &gain)
    }

    /// Without noise every product is the plain one.
    pub proof fn clean_products_are_plain(&self, idx: int, x: X, w: P)
        requires
            self.noise.is_clean(),
        ensures
            self.noisy(idx, x, w) == value2::<X, P, X, J>(self.product, x, w),
    {
    }
}

impl<'a, N, X, Y> Default for TrainNoise<'a, N, X, Y> {
    /// No noise.
    fn default() -> (noise: Self)
        ensures
            noise.valid(),
            noise.is_clean(),
    {
        TrainNoise { lora: &[], mm_indices: &[], pos_emb: None, out_gain: None, beta: None }
    }
}

} // verus!
