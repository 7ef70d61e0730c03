//! The spiking transformer: the order, shapes and update classes of its
//! parameters, and where each parameter stands in that order.
//!
//! The order is: the three input projections, the position embedding, then for
//! each block the query, key and value weights of all heads, the output weight
//! and the two feed-forward weights; then the readout weight, its gain and the
//! attention temperature.

use vstd::prelude::*;

use crate::common::{EMB_PARAM, MM_PARAM, PARAM};
use crate::ops::{apply1, copies, copy_all, made, make, makes};

verus! {

/// A transformer block: attention weights per head, and a feed-forward layer.
pub struct Block<P> {
    /// The query weight of each head.
    pub q: Vec<P>,
    /// The key weight of each head.
    pub k: Vec<P>,
    /// The value weight of each head.
    pub v: Vec<P>,
    /// The output weight.
    pub o: P,
    /// The first feed-forward weight.
    pub ff1: P,
    /// The second feed-forward weight.
    pub ff2: P,
}

/// The spiking transformer.
pub struct SnnTransformer<P> {
    /// The query projection of the input.
    pub in_q: P,
    /// The key projection of the input.
    pub in_k: P,
    /// The value projection of the input.
    pub in_v: P,
    /// The position embedding.
    pub pos_emb: P,
    /// The blocks.
    pub blocks: Vec<Block<P>>,
    /// The readout weight.
    pub out: P,
    /// The readout gain.
    pub out_gain: P,
    /// The attention temperature.
    pub beta: P,
    /// The dimensions.
    pub dims: TransformerDims,
}

/// How many parameters a block has.
pub open spec fn block_len(heads: int) -> int {
    3 * heads + 3
}

/// Where block `b` starts.
pub open spec fn block_start(heads: int, b: int) -> int {
    4 + b * block_len(heads)
}

/// How many parameters a transformer has.
pub open spec fn param_count(heads: int, blocks: int) -> int {
    block_start(heads, blocks) + 3
}

impl<P> Block<P> {
    /// Each head has a query, a key and a value weight.
    pub open spec fn valid(self, heads: nat) -> bool {
        self.q@.len() == heads && self.k@.len() == heads && self.v@.len() == heads
    }

    /// The parameters of the block, in order.
    pub open spec fn param_seq(self) -> Seq<P> {
        self.q@ + self.k@ + self.v@ + seq![self.o, self.ff1, self.ff2]
    }
}

/// The parameters of the first `n` blocks, in order.
pub open spec fn blocks_seq<P>(blocks: Seq<Block<P>>, n: nat) -> Seq<P>
    decreases n,
{
    if n == 0 {
        Seq::empty()
    } else {
        blocks_seq(blocks, (n - 1) as nat) + blocks[n - 1].param_seq()
    }
}

proof fn blocks_seq_prefix<P>(a: Seq<Block<P>>, b: Seq<Block<P>>, n: nat)
    requires
        n <= a.len(),
        n <= b.len(),
        forall|i: int| 0 <= i < n ==> a[i] == #[trigger] b[i],
    ensures
        blocks_seq(a, n) == blocks_seq(b, n),
    decreases n,
{
    if n > 0 {
        blocks_seq_prefix(a, b, (n - 1) as nat);
        assert(a[n - 1] == b[n - 1]);
    }
}

proof fn blocks_seq_len<P>(blocks: Seq<Block<P>>, heads: nat, n: nat)
    requires
        n <= blocks.len(),
        forall|i: int| 0 <= i < blocks.len() ==> (#[trigger] blocks[i]).valid(heads),
    ensures
        blocks_seq(blocks, n).len() == n * block_len(heads as int),
    decreases n,
{
    if n > 0 {
        blocks_seq_len(blocks, heads, (n - 1) as nat);
        assert(n * block_len(heads as int) == (n - 1) * block_len(heads as int) + block_len(
            heads as int,
        )) by (nonlinear_arith);
    } else {
        assert(0 * block_len(heads as int) == 0);
    }
}

/// Where the parameters of block `b` stand among those of the first `n` blocks.
proof fn block_within<P>(blocks: Seq<Block<P>>, heads: nat, n: nat, b: int)
    requires
        n <= blocks.len(),
        0 <= b < n,
        forall|i: int| 0 <= i < blocks.len() ==> (#[trigger] blocks[i]).valid(heads),
    ensures
        ({
            let lo = b * block_len(heads as int);
            let all = blocks_seq(blocks, n);
            &&& 0 <= lo
            &&& lo + block_len(heads as int) <= all.len()
            &&& all.subrange(lo, lo + block_len(heads as int)) == blocks[b].param_seq()
        }),
    decreases n,
{
    let len = block_len(heads as int);
    blocks_seq_len(blocks, heads, n);
    blocks_seq_len(blocks, heads, (n - 1) as nat);
    assert(0 <= b * len) by (nonlinear_arith)
        requires
            0 <= b,
            0 <= len,
    ;
    assert(b * len + len <= n * len) by (nonlinear_arith)
        requires
            b + 1 <= n,
            0 <= len,
    ;
    let all = blocks_seq(blocks, n);
    let before = blocks_seq(blocks, (n - 1) as nat);
    if b == n - 1 {
        assert(blocks[b].valid(heads));
        assert(all.subrange(b * len, b * len + len) =~= blocks[b].param_seq());
    } else {
        block_within(blocks, heads, (n - 1) as nat, b);
        assert(all.subrange(b * len, b * len + len) =~= before.subrange(b * len, b * len + len));
    }
}

impl<P> SnnTransformer<P> {
    /// There are as many blocks, and heads in every block, as the dimensions say.
    pub open spec fn valid(self) -> bool {
        &&& self.blocks@.len() == self.dims.num_blocks
        &&& forall|b: int|
            0 <= b < self.blocks@.len() ==> (#[trigger] self.blocks@[b]).valid(
                self.dims.num_heads as nat,
            )
    }

    /// The parameters, in order.
    pub open spec fn param_seq(self) -> Seq<P> {
        seq![self.in_q, self.in_k, self.in_v, self.pos_emb] + blocks_seq(
            self.blocks@,
            self.blocks@.len(),
        ) + seq![self.out, self.out_gain, self.beta]
    }

    /// The parameters, in order.
    pub fn params<C: Fn(&P) -> P>(&self, copy: &C) -> (params: Vec<P>)
        requires
            self.valid(),
            copies::<P, C>(*copy),
        ensures
            params@ == self.param_seq(),
            params@.len() == param_count(self.dims.num_heads as int, self.blocks@.len() as int),
    {
        proof {
            blocks_seq_len(self.blocks@, self.dims.num_heads as nat, self.blocks@.len());
        }
        let mut params: Vec<P> = Vec::new();
        params.push(apply1(copy, &self.in_q));
        params.push(apply1(copy, &self.in_k));
        params.push(apply1(copy, &self.in_v));
        params.push(apply1(copy, &self.pos_emb));
        let ghost head = params@;
        let mut b: usize = 0;
        proof {
            assert(head =~= seq![self.in_q, self.in_k, self.in_v, self.pos_emb]);
            assert(params@ =~= head + blocks_seq(self.blocks@, 0));
        }
        while b < self.blocks.len()
            invariant
                b <= self.blocks@.len(),
                copies::<P, C>(*copy),
                params@ == head + blocks_seq(self.blocks@, b as nat),
            decreases self.blocks@.len() - b,
        {
            let ghost before = params@;
            let block: &Block<P> = &self.blocks[b];
            let mut q: Vec<P> = copy_all(block.q.as_slice(), copy);
            let mut k: Vec<P> = copy_all(block.k.as_slice(), copy);
            let mut v: Vec<P> = copy_all(block.v.as_slice(), copy);
            params.append(&mut q);
            params.append(&mut k);
            params.append(&mut v);
            params.push(apply1(copy, &block.o));
            params.push(apply1(copy, &block.ff1));
            params.push(apply1(copy, &block.ff2));
            proof {
                assert(params@ =~= before + block.param_seq());
                let earlier = blocks_seq(self.blocks@, b as nat);
                assert(head + earlier + block.param_seq() =~= head + (earlier
                    + block.param_seq()));
            }
            b = b + 1;
        }
        params.push(apply1(copy, &self.out));
        params.push(apply1(copy, &self.out_gain));
        params.push(apply1(copy, &self.beta));
        proof {
            assert(params@ =~= self.param_seq());
        }
        params
    }

    /// A transformer of the given dimensions: `random` makes a weight of a shape and the number of
    /// its inputs, `zeros` a position embedding.
    pub fn new<F: Fn(([usize; 2], usize)) -> P, Z: Fn([usize; 2]) -> P>(
        dims: TransformerDims,
        random: &F,
        zeros: &Z,
        one: P,
        raw_beta: P,
    ) -> (model: Self)
        requires
            dims.valid(),
            dims.fits(),
            makes::<([usize; 2], usize), P, F>(*random),
            makes::<[usize; 2], P, Z>(*zeros),
        ensures
            model.valid(),
            model.dims == dims,
            forall|i: int|
                0 <= i < model.param_seq().len() && dims.class_at(i) == MM_PARAM ==> made::<
                    ([usize; 2], usize),
                    P,
                    F,
                >(
                    *random,
                    (dims.shape_at(i), dims.shape_at(i)[1]),
                    #[trigger] model.param_seq()[i],
                ),
            made::<[usize; 2], P, Z>(*zeros, [dims.num_tokens, dims.d_model], model.pos_emb),
            model.out_gain == one,
            model.beta == raw_beta,
    {
        let shapes: Vec<[usize; 2]> = dims.param_shapes();
        let end: usize = dims.out_param_index();
        let ghost total = end + 3;
        proof {
            block_start_grows(dims.num_heads as int, dims.num_blocks as int);
        }
        let mut params: Vec<P> = Vec::new();
        let mut i: usize = 0;
        while i <= end
            invariant
                4 <= end,
                end + 3 <= usize::MAX,
                end == block_start(dims.num_heads as int, dims.num_blocks as int),
                shapes@ == Seq::new((end + 3) as nat, |k: int| dims.shape_at(k)),
                i <= end + 1,
                params@.len() == i,
                makes::<([usize; 2], usize), P, F>(*random),
                makes::<[usize; 2], P, Z>(*zeros),
                forall|k: int|
                    0 <= k < i && k != 3 ==> made::<([usize; 2], usize), P, F>(
                        *random,
                        (dims.shape_at(k), dims.shape_at(k)[1]),
                        #[trigger] params@[k],
                    ),
                3 < i ==> made::<[usize; 2], P, Z>(
                    *zeros,
                    [dims.num_tokens, dims.d_model],
                    params@[3],
                ),
            decreases end + 1 - i,
        {
            let shape: [usize; 2] = shapes[i];
            if i == 3 {
                params.push(make(zeros, shape));
            } else {
                params.push(make(random, (shape, shape[1])));
            }
            i = i + 1;
        }
        params.push(one);
        params.push(raw_beta);
        let ghost all = params@;
        let model = SnnTransformer::write_params(params, dims);
        proof {
            assert(all.take(total) =~= all);
            blocks_seq_len(model.blocks@, dims.num_heads as nat, model.blocks@.len());
            assert(model.param_seq()[3] == model.pos_emb);
            assert(model.param_seq()[total - 2] == model.out_gain);
            assert(model.param_seq()[total - 1] == model.beta);
        }
        model
    }

    /// The transformer of a list of parameters in their order; what follows is dropped.
    pub fn write_params(params: Vec<P>, dims: TransformerDims) -> (model: Self)
        requires
            param_count(dims.num_heads as int, dims.num_blocks as int) <= params@.len(),
        ensures
            model.valid(),
            model.dims == dims,
            model.param_seq() == params@.take(
                param_count(dims.num_heads as int, dims.num_blocks as int),
            ),
    {
        let num_heads: usize = dims.num_heads;
        let num_blocks: usize = dims.num_blocks;
        let ghost given = params@;
        let ghost len = block_len(num_heads as int);
        let total: usize = params.len();
        let mut rest: Vec<P> = params;
        proof {
            assert(num_blocks * len >= 0) by (nonlinear_arith)
                requires
                    num_blocks >= 0,
                    len >= 0,
            ;
        }
        let in_q: P = rest.remove(0);
        let in_k: P = rest.remove(0);
        let in_v: P = rest.remove(0);
        let pos_emb: P = rest.remove(0);
        let mut blocks: Vec<Block<P>> = Vec::new();
        let mut b: usize = 0;
        proof {
            assert(rest@ =~= given.skip(4));
            assert(0 * len == 0);
            assert(blocks_seq(blocks@, 0) =~= given.subrange(4, 4));
        }
        while b < num_blocks
            invariant
                b <= num_blocks,
                len == block_len(num_heads as int),
                total == given.len(),
                param_count(num_heads as int, num_blocks as int) <= given.len(),
                blocks@.len() == b,
                0 <= b * len,
                rest@ == given.skip(4 + b * len),
                4 + b * len <= given.len(),
                forall|i: int| 0 <= i < b ==> (#[trigger] blocks@[i]).valid(num_heads as nat),
                blocks_seq(blocks@, b as nat) == given.subrange(4, 4 + b * len),
            decreases num_blocks - b,
        {
            proof {
                assert(b * len + len <= num_blocks * len) by (nonlinear_arith)
                    requires
                        b + 1 <= num_blocks,
                        len >= 0,
                ;
                assert((b + 1) * len == b * len + len) by (nonlinear_arith);
            }
            let ghost at = 4 + b * len;
            let ghost before = blocks@;
            let ghost h = num_heads as int;
            let mut after_q: Vec<P> = rest.split_off(num_heads);
            let mut after_k: Vec<P> = after_q.split_off(num_heads);
            let mut after_v: Vec<P> = after_k.split_off(num_heads);
            let o: P = after_v.remove(0);
            let ff1: P = after_v.remove(0);
            let ff2: P = after_v.remove(0);
            let block = Block { q: rest, k: after_q, v: after_k, o, ff1, ff2 };
            proof {
                assert(block.q@ =~= given.subrange(at, at + h));
                assert(block.k@ =~= given.subrange(at + h, at + 2 * h));
                assert(block.v@ =~= given.subrange(at + 2 * h, at + 3 * h));
                assert(block.param_seq() =~= given.subrange(at, at + len));
                assert(after_v@ =~= given.skip(at + len));
            }
            rest = after_v;
            blocks.push(block);
            proof {
                blocks_seq_prefix(before, blocks@, b as nat);
                assert(given.subrange(4, at) + given.subrange(at, at + len) =~= given.subrange(
                    4,
                    at + len,
                ));
            }
            b = b + 1;
        }
        let out: P = rest.remove(0);
        let out_gain: P = rest.remove(0);
        let beta: P = rest.remove(0);
        let model = SnnTransformer {
            in_q,
            in_k,
            in_v,
            pos_emb,
            blocks,
            out,
            out_gain,
            beta,
            dims,
        };
        proof {
            assert(model.param_seq() =~= given.take(
                param_count(num_heads as int, num_blocks as int),
            ));
        }
        model
    }
}

/// Every parameter stands where its index says: the weights of a head at the head's indices, the
/// output and feed-forward weights behind those of all heads, the readout behind all blocks.
pub proof fn params_stand_at_their_indices<P>(model: SnnTransformer<P>, b: int, h: int)
    requires
        model.valid(),
        0 <= b < model.blocks@.len(),
        0 <= h < model.dims.num_heads,
    ensures
        ({
            let heads = model.dims.num_heads as int;
            let base = block_start(heads, b);
            let all = model.param_seq();
            let block = model.blocks@[b];
            &&& 4 <= base
            &&& base + block_len(heads) <= all.len()
            &&& all[base + h] == block.q@[h]
            &&& all[base + heads + h] == block.k@[h]
            &&& all[base + 2 * heads + h] == block.v@[h]
            &&& all[base + 3 * heads] == block.o
            &&& all[base + 3 * heads + 1] == block.ff1
            &&& all[base + 3 * heads + 2] == block.ff2
            &&& all[block_start(heads, model.blocks@.len() as int)] == model.out
            &&& all.len() == param_count(heads, model.blocks@.len() as int)
        }),
{
    let heads = model.dims.num_heads as int;
    let len = block_len(heads);
    let inner = blocks_seq(model.blocks@, model.blocks@.len());
    let all = model.param_seq();
    blocks_seq_len(model.blocks@, heads as nat, model.blocks@.len());
    block_within(model.blocks@, heads as nat, model.blocks@.len(), b);
    let lo = b * len;
    let part = inner.subrange(lo, lo + len);
    let block = model.blocks@[b];
    assert(block.valid(heads as nat));
    assert(part[h] == block.q@[h]);
    assert(part[heads + h] == block.k@[h]);
    assert(part[2 * heads + h] == block.v@[h]);
    assert(part[3 * heads] == block.o);
    assert(part[3 * heads + 1] == block.ff1);
    assert(part[3 * heads + 2] == block.ff2);
    assert forall|i: int| 0 <= i < len implies all[4 + lo + i] == #[trigger] part[i] by {
        assert(part[i] == inner[lo + i]);
    }
}

/// Writing back the parameters of a transformer gives the transformer: one of the same
/// dimensions with the same parameters has every parameter in the same place.
pub proof fn params_determine_transformer<P>(x: SnnTransformer<P>, y: SnnTransformer<P>)
    requires
        x.valid(),
        y.valid(),
        0 < x.dims.num_heads,
        x.dims == y.dims,
        x.param_seq() == y.param_seq(),
    ensures
        x.in_q == y.in_q,
        x.in_k == y.in_k,
        x.in_v == y.in_v,
        x.pos_emb == y.pos_emb,
        forall|b: int|
            0 <= b < x.blocks@.len() ==> ({
                let (p, q) = (#[trigger] x.blocks@[b], y.blocks@[b]);
                &&& p.q@ == q.q@
                &&& p.k@ == q.k@
                &&& p.v@ == q.v@
                &&& p.o == q.o
                &&& p.ff1 == q.ff1
                &&& p.ff2 == q.ff2
            }),
        x.out == y.out,
        x.out_gain == y.out_gain,
        x.beta == y.beta,
{
    let heads = x.dims.num_heads as nat;
    let n = x.blocks@.len();
    blocks_seq_len(x.blocks@, heads, n);
    blocks_seq_len(y.blocks@, heads, n);
    let (p, q) = (x.param_seq(), y.param_seq());
    assert(p[0] == x.in_q && q[0] == y.in_q);
    assert(p[1] == x.in_k && q[1] == y.in_k);
    assert(p[2] == x.in_v && q[2] == y.in_v);
    assert(p[3] == x.pos_emb && q[3] == y.pos_emb);
    let end = p.len() - 3;
    assert(p[end] == x.out && q[end] == y.out);
    assert(p[end + 1] == x.out_gain && q[end + 1] == y.out_gain);
    assert(p[end + 2] == x.beta && q[end + 2] == y.beta);
    assert forall|b: int| 0 <= b < n implies ({
        let (p, q) = (#[trigger] x.blocks@[b], y.blocks@[b]);
        &&& p.q@ == q.q@
        &&& p.k@ == q.k@
        &&& p.v@ == q.v@
        &&& p.o == q.o
        &&& p.ff1 == q.ff1
        &&& p.ff2 == q.ff2
    }) by {
        let (s, t) = (x.blocks@[b], y.blocks@[b]);
        assert(s.valid(heads) && t.valid(heads));
        params_stand_at_their_indices(x, b, 0);
        params_stand_at_their_indices(y, b, 0);
        assert forall|h: int| 0 <= h < heads implies s.q@[h] == t.q@[h] && s.k@[h] == t.k@[h]
            && s.v@[h] == t.v@[h] by {
            params_stand_at_their_indices(x, b, h);
            params_stand_at_their_indices(y, b, h);
        }
        assert(s.q@ =~= t.q@);
        assert(s.k@ =~= t.k@);
        assert(s.v@ =~= t.v@);
    }
}

// ---------------------------------------------------------------------------
// Shapes and classes
// ---------------------------------------------------------------------------
/// The dimensions of a transformer.
#[derive(Clone, Copy, Debug, PartialEq, Eq, Structural)]
pub struct TransformerDims {
    /// Dimension of an input token.
    pub token_in_dim: usize,
    /// Number of tokens.
    pub num_tokens: usize,
    /// Number of classes.
    pub num_classes: usize,
    /// Dimension of the model.
    pub d_model: usize,
    /// Heads per block.
    pub num_heads: usize,
    /// Number of blocks.
    pub num_blocks: usize,
}

impl TransformerDims {
    /// The heads divide the dimension of the model.
    pub open spec fn valid(self) -> bool {
        &&& 0 < self.num_heads
        &&& self.d_model as int % self.num_heads as int == 0
    }

    /// The number of parameters and the input dimension stay in the machine's range.
    pub open spec fn fits(self) -> bool {
        &&& param_count(self.num_heads as int, self.num_blocks as int) <= usize::MAX
        &&& self.num_tokens * self.token_in_dim <= usize::MAX
    }

    /// Whether the heads divide the dimension of the model.
    pub fn check(&self) -> (ok: bool)
        ensures
            ok == self.valid(),
    {
        self.num_heads > 0 && self.d_model % self.num_heads == 0
    }

    /// Tells whether the number of parameters and the input dimension stay in the machine's range.
    pub fn check_fits(&self) -> (ok: bool)
        ensures
            ok == self.fits(),
    {
        let heads: u128 = self.num_heads as u128;
        let blocks: u128 = self.num_blocks as u128;
        let limit: u128 = usize::MAX as u128;
        let per_block: u128 = 3 * heads + 3;
        proof {
            assert(self.num_blocks == 0 ==> blocks * per_block == 0) by (nonlinear_arith)
                requires
                    self.num_blocks == 0 ==> blocks == 0,
            ;
            assert(per_block > limit && blocks > 0 ==> blocks * per_block > limit)
                by (nonlinear_arith);
            assert(per_block <= limit ==> blocks * per_block <= 0xffff_ffff_ffff_ffff
                * 0xffff_ffff_ffff_ffff) by (nonlinear_arith)
                requires
                    0 <= blocks <= 0xffff_ffff_ffff_ffff,
                    0 <= per_block,
                    limit <= 0xffff_ffff_ffff_ffff,
            ;
        }
        let count_fits: bool = blocks == 0 || (per_block <= limit && blocks * per_block + 7
            <= limit);
        count_fits && self.num_tokens.checked_mul(self.token_in_dim).is_some()
    }

    /// The dimension of a head.
    pub fn head_dim(&self) -> (d: usize)
        requires
            self.valid(),
        ensures
            d == self.d_model as int / self.num_heads as int,
            d * self.num_heads == self.d_model,
    {
        proof {
            vstd::arithmetic::div_mod::lemma_fundamental_div_mod(
                self.d_model as int,
                self.num_heads as int,
            );
            let d = self.d_model as int / self.num_heads as int;
            assert(self.num_heads * d == d * self.num_heads) by (nonlinear_arith);
        }
        self.d_model / self.num_heads
    }

    /// The dimension of a flattened input.
    pub fn in_dim(&self) -> (n: usize)
        requires
            self.fits(),
        ensures
            n == self.num_tokens * self.token_in_dim,
    {
        self.num_tokens * self.token_in_dim
    }

    /// The index at which block `b` starts.
    pub fn block_base(&self, b: usize) -> (base: usize)
        requires
            self.fits(),
            b <= self.num_blocks,
        ensures
            base == block_start(self.num_heads as int, b as int),
    {
        proof {
            let len = block_len(self.num_heads as int);
            assert(0 <= b * len <= self.num_blocks * len) by (nonlinear_arith)
                requires
                    0 <= b <= self.num_blocks,
                    0 <= len,
            ;
            if b > 0 {
                assert(len <= b * len) by (nonlinear_arith)
                    requires
                        b >= 1,
                        len >= 0,
                ;
            }
        }
        if b == 0 {
            4
        } else {
            4 + b * (3 * self.num_heads + 3)
        }
    }

    /// The index of the readout weight.
    pub fn out_param_index(&self) -> (i: usize)
        requires
            self.fits(),
        ensures
            i == block_start(self.num_heads as int, self.num_blocks as int),
    {
        self.block_base(self.num_blocks)
    }

    /// The indices of the query, key and value weights of head `h` of block `b`.
    pub fn head_indices(&self, b: usize, h: usize) -> (r: (usize, usize, usize))
        requires
            self.fits(),
            b < self.num_blocks,
            h < self.num_heads,
        ensures
            r.0 == block_start(self.num_heads as int, b as int) + h,
            r.1 == block_start(self.num_heads as int, b as int) + self.num_heads + h,
            r.2 == block_start(self.num_heads as int, b as int) + 2 * self.num_heads + h,
    {
        let base: usize = self.block_base(b);
        proof {
            block_follows(self.num_heads as int, b as int);
            assert((b + 1) * block_len(self.num_heads as int) <= self.num_blocks * block_len(
                self.num_heads as int,
            )) by (nonlinear_arith)
                requires
                    b + 1 <= self.num_blocks,
                    0 <= block_len(self.num_heads as int),
            ;
        }
        (base + h, base + self.num_heads + h, base + 2 * self.num_heads + h)
    }

    /// The indices of the output weight and the two feed-forward weights of block `b`.
    pub fn tail_indices(&self, b: usize) -> (r: (usize, usize, usize))
        requires
            self.fits(),
            b < self.num_blocks,
        ensures
            r.0 == block_start(self.num_heads as int, b as int) + 3 * self.num_heads,
            r.1 == block_start(self.num_heads as int, b as int) + 3 * self.num_heads + 1,
            r.2 == block_start(self.num_heads as int, b as int) + 3 * self.num_heads + 2,
    {
        let base: usize = self.block_base(b);
        proof {
            block_follows(self.num_heads as int, b as int);
            assert((b + 1) * block_len(self.num_heads as int) <= self.num_blocks * block_len(
                self.num_heads as int,
            )) by (nonlinear_arith)
                requires
                    b + 1 <= self.num_blocks,
                    0 <= block_len(self.num_heads as int),
            ;
        }
        let tail: usize = base + 3 * self.num_heads;
        (tail, tail + 1, tail + 2)
    }

    /// The shape of the parameter at an index within a block.
    pub open spec fn block_shape(self, i: int) -> [usize; 2] {
        if i < 3 * self.num_heads {
            [(self.d_model as int / self.num_heads as int) as usize, self.d_model]
        } else {
            [self.d_model, self.d_model]
        }
    }

    /// The shape of the parameter at an index.
    pub open spec fn shape_at(self, i: int) -> [usize; 2] {
        let heads = self.num_heads as int;
        let end = block_start(heads, self.num_blocks as int);
        if i < 3 {
            [self.d_model, self.token_in_dim]
        } else if i == 3 {
            [self.num_tokens, self.d_model]
        } else if i < end {
            self.block_shape((i - 4) % block_len(heads))
        } else if i == end {
            [self.num_classes, self.d_model]
        } else {
            [1, 1]
        }
    }

    /// The shapes of all parameters, in order.
    pub fn param_shapes(&self) -> (shapes: Vec<[usize; 2]>)
        requires
            self.valid(),
            self.fits(),
        ensures
            shapes@ == Seq::new(
                param_count(self.num_heads as int, self.num_blocks as int) as nat,
                |i: int| self.shape_at(i),
            ),
    {
        let end: usize = self.out_param_index();
        let total: usize = end + 3;
        let head: usize = self.head_dim();
        let mut shapes: Vec<[usize; 2]> = Vec::with_capacity(total);
        let mut i: usize = 0;
        while i < total
            invariant
                self.valid(),
                self.fits(),
                end == block_start(self.num_heads as int, self.num_blocks as int),
                total == end + 3,
                head == self.d_model as int / self.num_heads as int,
                i <= total,
                shapes@.len() == i,
                forall|k: int| 0 <= k < i ==> #[trigger] shapes@[k] == self.shape_at(k),
            decreases total - i,
        {
            if i < 3 {
                shapes.push([self.d_model, self.token_in_dim]);
            } else if i == 3 {
                shapes.push([self.num_tokens, self.d_model]);
            } else if i < end {
                proof {
                    let len = block_len(self.num_heads as int);
                    assert(self.num_blocks > 0) by (nonlinear_arith)
                        requires
                            self.num_blocks * len > 0,
                            len >= 0,
                            self.num_blocks >= 0,
                    ;
                    assert(len <= self.num_blocks * len) by (nonlinear_arith)
                        requires
                            self.num_blocks >= 1,
                            len >= 0,
                    ;
                }
                let within: usize = (i - 4) % (3 * self.num_heads + 3);
                if within < 3 * self.num_heads {
                    shapes.push([head, self.d_model]);
                } else {
                    shapes.push([self.d_model, self.d_model]);
                }
            } else if i == end {
                shapes.push([self.num_classes, self.d_model]);
            } else {
                shapes.push([1, 1]);
            }
            i = i + 1;
        }
        proof {
            assert(shapes@ =~= Seq::new(total as nat, |i: int| self.shape_at(i)));
        }
        shapes
    }

    /// The update class of the parameter at an index: an embedding for the positions, plain for
    /// the gain and the temperature, matrices for the rest.
    pub open spec fn class_at(self, i: int) -> i32 {
        let total = param_count(self.num_heads as int, self.num_blocks as int);
        if i == 3 {
            EMB_PARAM
        } else if i >= total - 2 {
            PARAM
        } else {
            MM_PARAM
        }
    }

    /// The update classes of all parameters, in order.
    pub open spec fn class_seq(self) -> Seq<i32> {
        Seq::new(
            param_count(self.num_heads as int, self.num_blocks as int) as nat,
            |i: int| self.class_at(i),
        )
    }

    /// The update classes of all parameters, in order.
    pub fn es_map(&self) -> (map: Vec<i32>)
        requires
            self.fits(),
        ensures
            map@ == self.class_seq(),
    {
        proof {
            let len = block_len(self.num_heads as int);
            assert(0 <= self.num_blocks * len) by (nonlinear_arith)
                requires
                    0 <= self.num_blocks,
                    0 <= len,
            ;
        }
        let total: usize = self.out_param_index() + 3;
        let mut map: Vec<i32> = Vec::with_capacity(total);
        let mut i: usize = 0;
        while i < total
            invariant
                total == param_count(self.num_heads as int, self.num_blocks as int),
                total >= 7,
                i <= total,
                map@.len() == i,
                forall|k: int| 0 <= k < i ==> #[trigger] map@[k] == self.class_at(k),
            decreases total - i,
        {
            if i == 3 {
                map.push(EMB_PARAM);
            } else if i >= total - 2 {
                map.push(PARAM);
            } else {
                map.push(MM_PARAM);
            }
            i = i + 1;
        }
        proof {
            assert(map@ =~= self.class_seq());
        }
        map
    }
}

proof fn block_start_grows(heads: int, b: int)
    requires
        0 <= heads,
        0 <= b,
    ensures
        block_start(heads, b) >= 4,
{
    assert(0 <= b * block_len(heads)) by (nonlinear_arith)
        requires
            0 <= b,
            0 <= block_len(heads),
    ;
}

proof fn block_follows(heads: int, b: int)
    requires
        0 <= heads,
        0 <= b,
    ensures
        block_start(heads, b + 1) == block_start(heads, b) + block_len(heads),
        block_start(heads, b) >= 4,
{
    let len = block_len(heads);
    assert((b + 1) * len == b * len + len) by (nonlinear_arith);
    assert(0 <= b * len) by (nonlinear_arith)
        requires
            0 <= b,
            0 <= len,
    ;
}

/// Exactly the position embedding, the gain and the temperature are no matrices.
pub proof fn non_matrices(dims: TransformerDims, i: int)
    requires
        0 <= i < param_count(dims.num_heads as int, dims.num_blocks as int),
    ensures
        (dims.class_at(i) != MM_PARAM) == (i == 3 || i == param_count(
            dims.num_heads as int,
            dims.num_blocks as int,
        ) - 2 || i == param_count(dims.num_heads as int, dims.num_blocks as int) - 1),
{
}

// ---------------------------------------------------------------------------
// Indices
// ---------------------------------------------------------------------------
/// The indices below `n` whose class is `class`, in order.
pub open spec fn indices_of(map: Seq<i32>, class: i32, n: nat) -> Seq<usize>
    decreases n,
{
    if n == 0 {
        Seq::empty()
    } else if map[n - 1] == class {
        indices_of(map, class, (n - 1) as nat).push((n - 1) as usize)
    } else {
        indices_of(map, class, (n - 1) as nat)
    }
}

/// The indices below `n` whose class is not `class`, in order.
pub open spec fn other_indices(map: Seq<i32>, class: i32, n: nat) -> Seq<usize>
    decreases n,
{
    if n == 0 {
        Seq::empty()
    } else if map[n - 1] != class {
        other_indices(map, class, (n - 1) as nat).push((n - 1) as usize)
    } else {
        other_indices(map, class, (n - 1) as nat)
    }
}

/// The indices of a class, and those of all other classes, each in order.
pub fn split_indices(map: &[i32], class: i32) -> (r: (Vec<usize>, Vec<usize>))
    ensures
        r.0@ == indices_of(map@, class, map@.len()),
        r.1@ == other_indices(map@, class, map@.len()),
{
    let mut of: Vec<usize> = Vec::new();
    let mut other: Vec<usize> = Vec::new();
    let mut i: usize = 0;
    while i < map.len()
        invariant
            i <= map@.len(),
            of@ == indices_of(map@, class, i as nat),
            other@ == other_indices(map@, class, i as nat),
        decreases map@.len() - i,
    {
        if map[i] == class {
            of.push(i);
        } else {
            other.push(i);
        }
        i = i + 1;
    }
    (of, other)
}

/// Every index is in exactly one of the two lists.
pub proof fn split_is_complete(map: Seq<i32>, class: i32, n: nat)
    requires
        n <= map.len(),
        n <= usize::MAX,
    ensures
        indices_of(map, class, n).len() + other_indices(map, class, n).len() == n,
        forall|i: usize| #[trigger]
            indices_of(map, class, n).contains(i) <==> (i < n && map[i as int] == class),
        forall|i: usize| #[trigger]
            other_indices(map, class, n).contains(i) <==> (i < n && map[i as int] != class),
    decreases n,
{
    if n > 0 {
        let m = (n - 1) as nat;
        split_is_complete(map, class, m);
        let (a, b) = (indices_of(map, class, m), other_indices(map, class, m));
        let last = m as usize;
        assert forall|i: usize| #[trigger] indices_of(map, class, n).contains(i) <==> (i < n
            && map[i as int] == class) by {
            push_contains(a, last, i);
            assert(a.contains(i) <==> (i < m && map[i as int] == class));
        }
        assert forall|i: usize| #[trigger] other_indices(map, class, n).contains(i) <==> (i < n
            && map[i as int] != class) by {
            push_contains(b, last, i);
            assert(b.contains(i) <==> (i < m && map[i as int] != class));
        }
    }
}

proof fn push_contains(s: Seq<usize>, x: usize, i: usize)
    ensures
        s.push(x).contains(i) <==> s.contains(i) || i == x,
{
    if s.contains(i) {
        let k = choose|k: int| 0 <= k < s.len() && s[k] == i;
        assert(s.push(x)[k] == i);
    }
    if i == x {
        assert(s.push(x)[s.len() as int] == i);
    }
    if s.push(x).contains(i) && i != x {
        let k = choose|k: int| 0 <= k < s.push(x).len() && s.push(x)[k] == i;
        assert(s[k] == i);
    }
}

/// The first position of `idx`, from `k` on.
pub open spec fn slot_from(mm_indices: Seq<usize>, idx: usize, k: int) -> Option<int>
    decreases mm_indices.len() - k,
{
    if k >= mm_indices.len() {
        None
    } else if mm_indices[k] == idx {
        Some(k)
    } else {
        slot_from(mm_indices, idx, k + 1)
    }
}

/// Where the noise of the parameter at `idx` stands: the first position of `idx` in the list of
/// noised parameters.
pub fn noise_slot(mm_indices: &[usize], idx: usize) -> (slot: Option<usize>)
    ensures
        match slot {
            Some(k) => k < mm_indices@.len() && slot_from(mm_indices@, idx, 0) == Some(k as int),
            None => slot_from(mm_indices@, idx, 0) is None,
        },
{
    let mut k: usize = 0;
    while k < mm_indices.len()
        invariant
            k <= mm_indices@.len(),
            slot_from(mm_indices@, idx, 0) == slot_from(mm_indices@, idx, k as int),
        decreases mm_indices@.len() - k,
    {
        if mm_indices[k] == idx {
            return Some(k);
        }
        k = k + 1;
    }
    None
}

/// The list of all matrix parameters gives each of them a slot of its own, and the others none.
pub proof fn each_matrix_has_its_slot(map: Seq<i32>, class: i32, idx: usize)
    requires
        map.len() <= usize::MAX,
        idx < map.len(),
    ensures
        match slot_from(indices_of(map, class, map.len()), idx, 0) {
            Some(k) => {
                &&& map[idx as int] == class
                &&& 0 <= k < indices_of(map, class, map.len()).len()
                &&& indices_of(map, class, map.len())[k] == idx
            },
            None => map[idx as int] != class,
        },
{
    split_is_complete(map, class, map.len());
    let list = indices_of(map, class, map.len());
    slot_is_found(list, idx, 0);
    assert(list.contains(idx) <==> map[idx as int] == class);
}

/// Whether the noise of the parameter at `idx` stands at a slot that carries this index.
pub open spec fn has_own_slot(mm_indices: Seq<usize>, idx: int) -> bool {
    match slot_from(mm_indices, idx as usize, 0) {
        Some(k) => 0 <= k < mm_indices.len() && mm_indices[k] == idx,
        None => false,
    }
}

/// Every weight of a block gets its own noise, however many weights have its shape: with noise for
/// all matrices, each index that a block uses leads to a slot of that index, and to that weight
/// among the parameters.
pub proof fn weights_get_their_own_noise<P>(model: SnnTransformer<P>, b: int, h: int)
    requires
        model.valid(),
        model.dims.fits(),
        0 <= b < model.blocks@.len(),
        0 <= h < model.dims.num_heads,
    ensures
        ({
            let heads = model.dims.num_heads as int;
            let base = block_start(heads, b);
            let tail = base + 3 * heads;
            let all = model.param_seq();
            let block = model.blocks@[b];
            let mm = indices_of(model.dims.class_seq(), MM_PARAM, model.dims.class_seq().len());
            &&& has_own_slot(mm, base + h) && all[base + h] == block.q@[h]
            &&& has_own_slot(mm, base + heads + h) && all[base + heads + h] == block.k@[h]
            &&& has_own_slot(mm, base + 2 * heads + h) && all[base + 2 * heads + h] == block.v@[h]
            &&& has_own_slot(mm, tail) && all[tail] == block.o
            &&& has_own_slot(mm, tail + 1) && all[tail + 1] == block.ff1
            &&& has_own_slot(mm, tail + 2) && all[tail + 2] == block.ff2
        }),
{
    let heads = model.dims.num_heads as int;
    let n = model.blocks@.len() as int;
    let base = block_start(heads, b);
    let tail = base + 3 * heads;
    params_stand_at_their_indices(model, b, h);
    block_follows(heads, b);
    assert(block_start(heads, b + 1) <= block_start(heads, n)) by {
        assert((b + 1) * block_len(heads) <= n * block_len(heads)) by (nonlinear_arith)
            requires
                b + 1 <= n,
                0 <= block_len(heads),
        ;
    }
    let map = model.dims.class_seq();
    each_matrix_has_its_slot(map, MM_PARAM, (base + h) as usize);
    each_matrix_has_its_slot(map, MM_PARAM, (base + heads + h) as usize);
    each_matrix_has_its_slot(map, MM_PARAM, (base + 2 * heads + h) as usize);
    each_matrix_has_its_slot(map, MM_PARAM, tail as usize);
    each_matrix_has_its_slot(map, MM_PARAM, (tail + 1) as usize);
    each_matrix_has_its_slot(map, MM_PARAM, (tail + 2) as usize);
}

proof fn slot_is_found(list: Seq<usize>, idx: usize, k: int)
    requires
        0 <= k <= list.len(),
    ensures
        match slot_from(list, idx, k) {
            Some(j) => k <= j < list.len() && list[j] == idx,
            None => forall|j: int| k <= j < list.len() ==> #[trigger] list[j] != idx,
        },
    decreases list.len() - k,
{
    if k < list.len() && list[k] != idx {
        slot_is_found(list, idx, k + 1);
    }
}

} // verus!
