//! What the forward pass of the spiking transformer is for: residual blocks, noise
//! that is a change of the parameters, and the part that each input plays.

use vstd::prelude::*;

use crate::ops::{value1, value2, value3, value4};
use crate::snn_transformer::{
    block_len, block_start, blocks_seq, params_stand_at_their_indices, slot_from, SnnTransformer,
};
use crate::transformer_forward::ForwardPass;

verus! {

/// `n` times `x`, added up from `zero`.
pub open spec fn repeated_sum<X, A: Fn(&X, &X) -> X>(add: A, zero: X, x: X, n: nat) -> X
    decreases n,
{
    if n == 0 {
        zero
    } else {
        value2::<X, X, X, A>(add, repeated_sum::<X, A>(add, zero, x, (n - 1) as nat), x)
    }
}

impl<
    'a,
    P,
    N,
    X,
    Y,
    B,
    Z,
    J,
    K,
    A,
    R,
    BL,
    PL,
    LI,
    SH,
    SP,
    AT,
    JN,
    SW,
    PO,
    SC,
    CP,
> ForwardPass<
    'a,
    P,
    N,
    X,
    Y,
    J,
    K,
    A,
    R,
    BL,
    PL,
    LI,
    SH,
    SP,
    AT,
    JN,
    SW,
    PO,
    SC,
    CP,
> where
    J: Fn(&X, &P) -> X,
    K: Fn(&X, &X, &N) -> X,
    A: Fn(&X, &X) -> X,
    R: Fn(&X, &usize) -> X,
    BL: Fn(&X, &X, &X) -> X,
    PL: Fn(&X, &P) -> X,
    LI: Fn(&P) -> Y,
    SH: Fn(&P, &Y) -> Y,
    SP: Fn(&Y) -> B,
    AT: Fn(&X, &X, &X, &B) -> X,
    JN: Fn(&X, &X) -> X,
    SW: Fn(&X) -> X,
    PO: Fn(&X) -> X,
    SC: Fn(&X, &Y) -> Z,
    CP: Fn(&X) -> X,
 {
    /// Whether two passes have the same arithmetic.
    pub open spec fn same_arithmetic(&self, other: &Self) -> bool {
        &&& self.zero == other.zero
        &&& self.product == other.product
        &&& self.perturb == other.perturb
        &&& self.add == other.add
        &&& self.rate == other.rate
        &&& self.blend == other.blend
        &&& self.place == other.place
        &&& self.lift == other.lift
        &&& self.shift == other.shift
        &&& self.softplus == other.softplus
        &&& self.attend == other.attend
        &&& self.join == other.join
        &&& self.swish == other.swish
        &&& self.pool == other.pool
        &&& self.scale == other.scale
    }

    // -----------------------------------------------------------------------
    // Residual blocks
    // -----------------------------------------------------------------------
    /// Blocks are residual: where both projections of a block give zero, the block gives back its
    /// input.
    pub proof fn idle_block_gives_back_its_input(&self, b: int, x: X, zero: X)
        requires
            self.noise.is_clean(),
            forall|y: X| #[trigger] value2::<X, X, X, A>(self.add, y, zero) == y,
            forall|y: X| #[trigger]
                value2::<X, P, X, J>(self.product, y, self.model.blocks@[b].o) == zero,
            forall|y: X| #[trigger]
                value2::<X, P, X, J>(self.product, y, self.model.blocks@[b].ff2) == zero,
        ensures
            self.block_out(b, x) == x,
    {
    }

    /// Idle blocks pass the tokens on: where both projections of every block give zero, the tokens
    /// behind any number of blocks are the encoded tokens with the position embedding.
    pub proof fn idle_blocks_pass_the_tokens_on(&self, steps: Seq<X>, n: nat, zero: X)
        requires
            self.noise.is_clean(),
            n <= self.model.blocks@.len(),
            forall|y: X| #[trigger] value2::<X, X, X, A>(self.add, y, zero) == y,
            forall|b: int, y: X|
                0 <= b < n ==> #[trigger] value2::<X, P, X, J>(
                    self.product,
                    y,
                    self.model.blocks@[b].o,
                ) == zero,
            forall|b: int, y: X|
                0 <= b < n ==> #[trigger] value2::<X, P, X, J>(
                    self.product,
                    y,
                    self.model.blocks@[b].ff2,
                ) == zero,
        ensures
            self.tokens_after(steps, n) == value2::<X, P, X, PL>(
                self.place,
                self.encoded(steps),
                self.model.pos_emb,
            ),
        decreases n,
    {
        if n > 0 {
            self.idle_blocks_pass_the_tokens_on(steps, (n - 1) as nat, zero);
            self.idle_block_gives_back_its_input(
                n - 1,
                self.tokens_after(steps, (n - 1) as nat),
                zero,
            );
        }
    }

    /// A block is its attention followed by its feed-forward layer: it gives what the block with
    /// an idle attention makes of what the block with an idle feed-forward layer makes of its
    /// input.
    pub proof fn blocks_are_two_halves(
        &self,
        attention: &Self,
        feed_forward: &Self,
        b: int,
        x: X,
        zero: X,
    )
        requires
            self.same_arithmetic(attention),
            self.same_arithmetic(feed_forward),
            self.noise.is_clean(),
            attention.noise.is_clean(),
            feed_forward.noise.is_clean(),
            self.model.dims == attention.model.dims,
            self.model.dims == feed_forward.model.dims,
            self.model.beta == attention.model.beta,
            forall|y: X| #[trigger] value2::<X, X, X, A>(self.add, y, zero) == y,
            ({
                let (s, p, q) = (
                    self.model.blocks@[b],
                    attention.model.blocks@[b],
                    feed_forward.model.blocks@[b],
                );
                &&& s.q == p.q && s.k == p.k && s.v == p.v && s.o == p.o
                &&& s.ff1 == q.ff1 && s.ff2 == q.ff2
                &&& forall|y: X| #[trigger]
                    value2::<X, P, X, J>(self.product, y, p.ff2) == zero
                &&& forall|y: X| #[trigger] value2::<X, P, X, J>(self.product, y, q.o) == zero
            }),
        ensures
            self.block_out(b, x) == feed_forward.block_out(b, attention.block_out(b, x)),
    {
        let heads = self.model.dims.num_heads as nat;
        attention.same_heads(self, b, x, heads);
    }

    /// Equal weights of the heads of a block make equal outputs.
    proof fn same_heads(&self, other: &Self, b: int, x: X, n: nat)
        requires
            other.same_arithmetic(self),
            self.noise.is_clean(),
            other.noise.is_clean(),
            self.model.dims == other.model.dims,
            self.model.beta == other.model.beta,
            self.model.blocks@[b].q == other.model.blocks@[b].q,
            self.model.blocks@[b].k == other.model.blocks@[b].k,
            self.model.blocks@[b].v == other.model.blocks@[b].v,
        ensures
            self.joined(b, x, n) == other.joined(b, x, n),
        decreases n,
    {
        if n > 1 {
            self.same_heads(other, b, x, (n - 1) as nat);
        }
    }

    /// The feed-forward layer of a block: where the attention projection gives zero, a block adds
    /// to its input what the second weight makes of the activation of what the first one makes of
    /// the input.
    pub proof fn feed_forward_is_added(&self, b: int, x: X, zero: X)
        requires
            self.noise.is_clean(),
            forall|y: X| #[trigger] value2::<X, X, X, A>(self.add, y, zero) == y,
            forall|y: X| #[trigger]
                value2::<X, P, X, J>(self.product, y, self.model.blocks@[b].o) == zero,
        ensures
            ({
                let block = self.model.blocks@[b];
                let hidden = value1::<X, X, SW>(
                    self.swish,
                    value2::<X, P, X, J>(self.product, x, block.ff1),
                );
                self.block_out(b, x) == value2::<X, X, X, A>(
                    self.add,
                    x,
                    value2::<X, P, X, J>(self.product, hidden, block.ff2),
                )
            }),
    {
    }

    /// The attention of a block of one head: where the feed-forward layer gives zero, a block adds
    /// to its input the projected attention of the queries, keys and values of the input, at the
    /// temperature of the model.
    pub proof fn attention_is_added(&self, b: int, x: X, zero: X)
        requires
            self.noise.is_clean(),
            self.model.dims.num_heads == 1,
            forall|y: X| #[trigger] value2::<X, X, X, A>(self.add, y, zero) == y,
            forall|y: X| #[trigger]
                value2::<X, P, X, J>(self.product, y, self.model.blocks@[b].ff2) == zero,
        ensures
            ({
                let block = self.model.blocks@[b];
                let attended = value4::<X, X, X, B, X, AT>(
                    self.attend,
                    value2::<X, P, X, J>(self.product, x, block.q@[0]),
                    value2::<X, P, X, J>(self.product, x, block.k@[0]),
                    value2::<X, P, X, J>(self.product, x, block.v@[0]),
                    value1::<Y, B, SP>(
                        self.softplus,
                        value1::<P, Y, LI>(self.lift, self.model.beta),
                    ),
                );
                self.block_out(b, x) == value2::<X, X, X, A>(
                    self.add,
                    x,
                    value2::<X, P, X, J>(self.product, attended, block.o),
                )
            }),
    {
    }

    /// Heads stand side by side in order: where joining puts the columns of its arguments one
    /// behind the other, the columns of the joined heads are those of the first head, then those
    /// of the second, and so on.
    pub proof fn heads_stand_in_order<T>(
        &self,
        b: int,
        x: X,
        n: nat,
        h: int,
        columns: spec_fn(X) -> Seq<T>,
        width: nat,
    )
        requires
            0 < n,
            0 <= h < n,
            forall|y: X, z: X| #[trigger]
                columns(value2::<X, X, X, JN>(self.join, y, z)) == columns(y) + columns(z),
            forall|q: X, k: X, v: X, t: B|
                (#[trigger] columns(value4::<X, X, X, B, X, AT>(self.attend, q, k, v, t))).len()
                    == width,
        ensures
            columns(self.joined(b, x, n)).len() == n * width,
            columns(self.joined(b, x, n)).subrange(h * width, h * width + width) == columns(
                self.head_out(b, h, x),
            ),
        decreases n,
    {
        assert(h * width >= 0 && h * width + width <= n * width && n * width == (n - 1) * width
            + width && 1 * width == width && 0 * width == 0) by (nonlinear_arith)
            requires
                0 <= h < n,
                0 <= width,
        ;
        let all = columns(self.joined(b, x, n));
        if n > 1 {
            let last = columns(self.head_out(b, n - 1, x));
            if h < n - 1 {
                self.heads_stand_in_order(b, x, (n - 1) as nat, h, columns, width);
                let before = columns(self.joined(b, x, (n - 1) as nat));
                assert(h * width + width <= (n - 1) * width) by (nonlinear_arith)
                    requires
                        h + 1 <= n - 1,
                        0 <= width,
                ;
                assert(all.subrange(h * width, h * width + width) =~= before.subrange(
                    h * width,
                    h * width + width,
                ));
            } else {
                self.heads_stand_in_order(b, x, (n - 1) as nat, 0, columns, width);
                assert(all.subrange(h * width, h * width + width) =~= last);
            }
        } else {
            assert(all.subrange(0, width as int) =~= all);
        }
    }

    // -----------------------------------------------------------------------
    // Encoding
    // -----------------------------------------------------------------------
    /// Equal time steps: the sum of their products is that many times one product.
    proof fn equal_steps_add_up(&self, idx: int, w: P, steps: Seq<X>, s: X, n: nat)
        requires
            n <= steps.len(),
            forall|i: int| 0 <= i < n ==> #[trigger] steps[i] == s,
        ensures
            self.summed(idx, w, steps, n) == repeated_sum::<X, A>(
                self.add,
                self.zero,
                self.noisy(idx, s, w),
                n,
            ),
        decreases n,
    {
        if n > 0 {
            self.equal_steps_add_up(idx, w, steps, s, (n - 1) as nat);
        }
    }

    /// Rates are means over time: where the rate of `n` equal currents over `n` steps is that of
    /// one, time steps that are all equal encode the tokens as one of them does, whatever their
    /// number.
    pub proof fn equal_steps_encode_as_one(&self, steps: Seq<X>, s: X)
        requires
            0 < steps.len() <= usize::MAX,
            forall|i: int| 0 <= i < steps.len() ==> #[trigger] steps[i] == s,
            forall|y: X, n: usize|
                n > 0 ==> #[trigger] value2::<X, usize, X, R>(
                    self.rate,
                    repeated_sum::<X, A>(self.add, self.zero, y, n as nat),
                    n,
                ) == value2::<X, usize, X, R>(
                    self.rate,
                    repeated_sum::<X, A>(self.add, self.zero, y, 1),
                    1,
                ),
        ensures
            self.encoded(steps) == self.encoded(seq![s]),
    {
        let n = steps.len();
        let one = seq![s];
        self.equal_steps_add_up(0, self.model.in_q, steps, s, n);
        self.equal_steps_add_up(1, self.model.in_k, steps, s, n);
        self.equal_steps_add_up(2, self.model.in_v, steps, s, n);
        self.equal_steps_add_up(0, self.model.in_q, one, s, 1);
        self.equal_steps_add_up(1, self.model.in_k, one, s, 1);
        self.equal_steps_add_up(2, self.model.in_v, one, s, 1);
        let k = n as usize;
        assert(k as nat == n);
    }

    /// The order of time steps does not matter: where sums may be taken in any order, exchanging
    /// two neighbouring time steps changes no logit.
    pub proof fn time_steps_commute(&self, steps: Seq<X>, i: int)
        requires
            0 <= i < steps.len() - 1,
            forall|a: X, y: X, z: X| #[trigger]
                value2::<X, X, X, A>(self.add, value2::<X, X, X, A>(self.add, a, y), z) == value2::<
                    X,
                    X,
                    X,
                    A,
                >(self.add, value2::<X, X, X, A>(self.add, a, z), y),
        ensures
            self.logits(steps.update(i, steps[i + 1]).update(i + 1, steps[i])) == self.logits(
                steps,
            ),
    {
        let other = steps.update(i, steps[i + 1]).update(i + 1, steps[i]);
        self.exchanged_sums(0, self.model.in_q, steps, other, i, steps.len());
        self.exchanged_sums(1, self.model.in_k, steps, other, i, steps.len());
        self.exchanged_sums(2, self.model.in_v, steps, other, i, steps.len());
        self.same_start_same_end(steps, other, self.model.blocks@.len());
    }

    proof fn exchanged_sums(
        &self,
        idx: int,
        w: P,
        steps: Seq<X>,
        other: Seq<X>,
        i: int,
        n: nat,
    )
        requires
            0 <= i < steps.len() - 1,
            n <= steps.len(),
            n != i + 1,
            other == steps.update(i, steps[i + 1]).update(i + 1, steps[i]),
            forall|a: X, y: X, z: X| #[trigger]
                value2::<X, X, X, A>(self.add, value2::<X, X, X, A>(self.add, a, y), z) == value2::<
                    X,
                    X,
                    X,
                    A,
                >(self.add, value2::<X, X, X, A>(self.add, a, z), y),
        ensures
            self.summed(idx, w, steps, n) == self.summed(idx, w, other, n),
        decreases n,
    {
        if n == i + 2 {
            self.exchanged_sums(idx, w, steps, other, i, i as nat);
            reveal_with_fuel(ForwardPass::summed, 3);
            let a = self.summed(idx, w, steps, i as nat);
            let (y, z) = (self.noisy(idx, steps[i], w), self.noisy(idx, steps[i + 1], w));
            assert(value2::<X, X, X, A>(self.add, value2::<X, X, X, A>(self.add, a, y), z)
                == value2::<X, X, X, A>(self.add, value2::<X, X, X, A>(self.add, a, z), y));
        } else if n > 0 {
            self.exchanged_sums(idx, w, steps, other, i, (n - 1) as nat);
            assert(steps[n - 1] == other[n - 1]);
        }
    }

    proof fn same_start_same_end(&self, steps: Seq<X>, other: Seq<X>, n: nat)
        requires
            self.encoded(steps) == self.encoded(other),
        ensures
            self.tokens_after(steps, n) == self.tokens_after(other, n),
        decreases n,
    {
        if n > 0 {
            self.same_start_same_end(steps, other, (n - 1) as nat);
        }
    }

    /// A pass through idle blocks: the logits of one time step are the gain times the readout of
    /// the mean of the placed tokens, which are the blended rates of the three projections of the
    /// time step.
    pub proof fn idle_pass_by_hand(&self, s: X, zero: X)
        requires
            self.noise.is_clean(),
            forall|y: X| #[trigger] value2::<X, X, X, A>(self.add, y, zero) == y,
            forall|y: X| #[trigger] value2::<X, X, X, A>(self.add, self.zero, y) == y,
            forall|b: int, y: X|
                0 <= b < self.model.blocks@.len() ==> #[trigger] value2::<X, P, X, J>(
                    self.product,
                    y,
                    self.model.blocks@[b].o,
                ) == zero,
            forall|b: int, y: X|
                0 <= b < self.model.blocks@.len() ==> #[trigger] value2::<X, P, X, J>(
                    self.product,
                    y,
                    self.model.blocks@[b].ff2,
                ) == zero,
        ensures
            ({
                let m = self.model;
                let q = value2::<X, usize, X, R>(
                    self.rate,
                    value2::<X, P, X, J>(self.product, s, m.in_q),
                    1,
                );
                let k = value2::<X, usize, X, R>(
                    self.rate,
                    value2::<X, P, X, J>(self.product, s, m.in_k),
                    1,
                );
                let v = value2::<X, usize, X, R>(
                    self.rate,
                    value2::<X, P, X, J>(self.product, s, m.in_v),
                    1,
                );
                let tokens = value2::<X, P, X, PL>(
                    self.place,
                    value3::<X, X, X, X, BL>(self.blend, q, k, v),
                    m.pos_emb,
                );
                self.logits(seq![s]) == value2::<X, Y, Z, SC>(
                    self.scale,
                    value2::<X, P, X, J>(
                        self.product,
                        value1::<X, X, PO>(self.pool, tokens),
                        m.out,
                    ),
                    value1::<P, Y, LI>(self.lift, m.out_gain),
                )
            }),
    {
        self.idle_blocks_pass_the_tokens_on(seq![s], self.model.blocks@.len(), zero);
        reveal_with_fuel(ForwardPass::summed, 2);
    }

    // -----------------------------------------------------------------------
    // Noise
    // -----------------------------------------------------------------------
    /// Whether a clean pass has the parameters of a noisy one with the noise added: each matrix
    /// with the noise in the slot of its index, if there is one, and the position embedding, the
    /// gain and the temperature with theirs.
    pub open spec fn is_moved(
        &self,
        clean: &Self,
        moved: spec_fn(P, N) -> P,
        moved_pos: spec_fn(P, X) -> P,
        moved_scalar: spec_fn(P, Y) -> P,
    ) -> bool {
        let (m, c) = (self.model, clean.model);
        let (all, others) = (m.param_seq(), c.param_seq());
        let end = all.len() as int;
        &&& m.valid() && c.valid()
        &&& m.dims == c.dims
        &&& 0 < m.dims.num_heads
        &&& clean.noise.is_clean()
        &&& all.len() == others.len()
        &&& all.len() <= usize::MAX
        &&& forall|i: int|
            0 <= i < end - 2 && i != 3 ==> #[trigger] others[i] == (match slot_from(
                self.noise.mm_indices@,
                i as usize,
                0,
            ) {
                Some(k) => moved(all[i], self.noise.lora@[k]),
                None => all[i],
            })
        &&& others[3] == (match self.noise.pos_emb {
            Some(n) => moved_pos(all[3], n),
            None => all[3],
        })
        &&& others[end - 2] == (match self.noise.out_gain {
            Some(n) => moved_scalar(all[end - 2], n),
            None => all[end - 2],
        })
        &&& others[end - 1] == (match self.noise.beta {
            Some(n) => moved_scalar(all[end - 1], n),
            None => all[end - 1],
        })
    }

    /// Whether noise acts as a change of the parameter that it belongs to.
    pub open spec fn noise_moves(
        &self,
        moved: spec_fn(P, N) -> P,
        moved_pos: spec_fn(P, X) -> P,
        moved_scalar: spec_fn(P, Y) -> P,
    ) -> bool {
        &&& forall|x: X, w: P, n: N| #[trigger]
            value3::<X, X, N, X, K>(
                self.perturb,
                value2::<X, P, X, J>(self.product, x, w),
                x,
                n,
            ) == value2::<X, P, X, J>(self.product, x, moved(w, n))
        &&& forall|x: X, p: P, n: X| #[trigger]
            value2::<X, X, X, A>(self.add, value2::<X, P, X, PL>(self.place, x, p), n) == value2::<
                X,
                P,
                X,
                PL,
            >(self.place, x, moved_pos(p, n))
        &&& forall|p: P, n: Y| #[trigger]
            value2::<P, Y, Y, SH>(self.shift, p, n) == value1::<P, Y, LI>(
                self.lift,
                moved_scalar(p, n),
            )
    }

    /// Noise is a change of the parameters: where noise acts as a change of the parameter that it
    /// belongs to, a noisy pass gives the logits of a clean pass with all parameters changed by
    /// their noise. So each weight gets the noise of its own index, and no other.
    pub proof fn noise_is_a_change_of_the_parameters(
        &self,
        clean: &Self,
        steps: Seq<X>,
        moved: spec_fn(P, N) -> P,
        moved_pos: spec_fn(P, X) -> P,
        moved_scalar: spec_fn(P, Y) -> P,
    )
        requires
            self.same_arithmetic(clean),
            self.is_moved(clean, moved, moved_pos, moved_scalar),
            self.noise_moves(moved, moved_pos, moved_scalar),
        ensures
            self.logits(steps) == clean.logits(steps),
    {
        let (m, c) = (self.model, clean.model);
        let (all, others) = (m.param_seq(), c.param_seq());
        let n = m.blocks@.len();
        outer_params(*m);
        outer_params(*c);
        assert(all[0] == m.in_q && all[1] == m.in_k && all[2] == m.in_v && all[3] == m.pos_emb);
        assert(others[0] == c.in_q && others[1] == c.in_k && others[2] == c.in_v && others[3]
            == c.pos_emb);
        self.moved_sums(clean, 0, steps, steps.len(), moved, moved_pos, moved_scalar);
        self.moved_sums(clean, 1, steps, steps.len(), moved, moved_pos, moved_scalar);
        self.moved_sums(clean, 2, steps, steps.len(), moved, moved_pos, moved_scalar);
        assert(self.encoded(steps) == clean.encoded(steps));
        assert(self.placed(self.encoded(steps)) == clean.placed(clean.encoded(steps)));
        assert(self.temperature() == clean.temperature());
        self.moved_tokens(clean, steps, n, moved, moved_pos, moved_scalar);
        let out = block_start(m.dims.num_heads as int, n as int);
        let pooled = value1::<X, X, PO>(self.pool, self.tokens_after(steps, n));
        assert(all[out] == m.out && others[out] == c.out);
        self.moved_product(clean, out, pooled, moved, moved_pos, moved_scalar);
    }

    proof fn moved_product(
        &self,
        clean: &Self,
        i: int,
        x: X,
        moved: spec_fn(P, N) -> P,
        moved_pos: spec_fn(P, X) -> P,
        moved_scalar: spec_fn(P, Y) -> P,
    )
        requires
            self.same_arithmetic(clean),
            self.is_moved(clean, moved, moved_pos, moved_scalar),
            self.noise_moves(moved, moved_pos, moved_scalar),
            0 <= i < self.model.param_seq().len() - 2,
            i != 3,
        ensures
            self.noisy(i, x, self.model.param_seq()[i]) == clean.noisy(
                i,
                x,
                clean.model.param_seq()[i],
            ),
    {
        let w = self.model.param_seq()[i];
        assert(clean.model.param_seq()[i] == (match slot_from(
            self.noise.mm_indices@,
            i as usize,
            0,
        ) {
            Some(k) => moved(w, self.noise.lora@[k]),
            None => w,
        }));
    }

    proof fn moved_sums(
        &self,
        clean: &Self,
        i: int,
        steps: Seq<X>,
        n: nat,
        moved: spec_fn(P, N) -> P,
        moved_pos: spec_fn(P, X) -> P,
        moved_scalar: spec_fn(P, Y) -> P,
    )
        requires
            self.same_arithmetic(clean),
            self.is_moved(clean, moved, moved_pos, moved_scalar),
            self.noise_moves(moved, moved_pos, moved_scalar),
            0 <= i < 3,
            5 < self.model.param_seq().len(),
        ensures
            self.summed(i, self.model.param_seq()[i], steps, n) == clean.summed(
                i,
                clean.model.param_seq()[i],
                steps,
                n,
            ),
        decreases n,
    {
        if n > 0 {
            self.moved_sums(clean, i, steps, (n - 1) as nat, moved, moved_pos, moved_scalar);
            self.moved_product(clean, i, steps[n - 1], moved, moved_pos, moved_scalar);
        }
    }

    proof fn moved_heads(
        &self,
        clean: &Self,
        b: int,
        x: X,
        n: nat,
        moved: spec_fn(P, N) -> P,
        moved_pos: spec_fn(P, X) -> P,
        moved_scalar: spec_fn(P, Y) -> P,
    )
        requires
            self.same_arithmetic(clean),
            self.is_moved(clean, moved, moved_pos, moved_scalar),
            self.noise_moves(moved, moved_pos, moved_scalar),
            self.temperature() == clean.temperature(),
            0 <= b < self.model.blocks@.len(),
            n <= self.model.dims.num_heads,
        ensures
            self.joined(b, x, n) == clean.joined(b, x, n),
        decreases n,
    {
        let h = if n == 0 {
            0
        } else {
            n - 1
        };
        let heads = self.model.dims.num_heads as int;
        let base = block_start(heads, b);
        params_stand_at_their_indices(*self.model, b, h);
        params_stand_at_their_indices(*clean.model, b, h);
        let block = self.model.blocks@[b];
        assert(block.valid(heads as nat) && clean.model.blocks@[b].valid(heads as nat));
        self.moved_product(clean, base + h, x, moved, moved_pos, moved_scalar);
        self.moved_product(clean, base + heads + h, x, moved, moved_pos, moved_scalar);
        self.moved_product(clean, base + 2 * heads + h, x, moved, moved_pos, moved_scalar);
        assert(self.head_out(b, h, x) == clean.head_out(b, h, x));
        if n > 1 {
            self.moved_heads(clean, b, x, (n - 1) as nat, moved, moved_pos, moved_scalar);
        }
    }

    proof fn moved_tokens(
        &self,
        clean: &Self,
        steps: Seq<X>,
        n: nat,
        moved: spec_fn(P, N) -> P,
        moved_pos: spec_fn(P, X) -> P,
        moved_scalar: spec_fn(P, Y) -> P,
    )
        requires
            self.same_arithmetic(clean),
            self.is_moved(clean, moved, moved_pos, moved_scalar),
            self.noise_moves(moved, moved_pos, moved_scalar),
            self.temperature() == clean.temperature(),
            self.placed(self.encoded(steps)) == clean.placed(clean.encoded(steps)),
            n <= self.model.blocks@.len(),
        ensures
            self.tokens_after(steps, n) == clean.tokens_after(steps, n),
        decreases n,
    {
        if n > 0 {
            let b = n - 1;
            self.moved_tokens(clean, steps, b as nat, moved, moved_pos, moved_scalar);
            let x = self.tokens_after(steps, b as nat);
            let heads = self.model.dims.num_heads as int;
            let tail = block_start(heads, b) + 3 * heads;
            self.moved_heads(clean, b, x, heads as nat, moved, moved_pos, moved_scalar);
            params_stand_at_their_indices(*self.model, b, 0);
            params_stand_at_their_indices(*clean.model, b, 0);
            let count = self.model.blocks@.len() as int;
            let len = block_len(heads);
            assert(b * len + len <= count * len) by (nonlinear_arith)
                requires
                    b + 1 <= count,
                    len >= 0,
            ;
            let block = self.model.blocks@[b];
            let joined = self.joined(b, x, heads as nat);
            self.moved_product(clean, tail, joined, moved, moved_pos, moved_scalar);
            let y = value2::<X, X, X, A>(self.add, x, self.noisy(tail, joined, block.o));
            self.moved_product(clean, tail + 1, y, moved, moved_pos, moved_scalar);
            let inner = value1::<X, X, SW>(self.swish, self.noisy(tail + 1, y, block.ff1));
            self.moved_product(clean, tail + 2, inner, moved, moved_pos, moved_scalar);
        }
    }

    // -----------------------------------------------------------------------
    // The parts that inputs play
    // -----------------------------------------------------------------------
    /// What is ignored does not matter: two clean models may differ in the weights of the queries
    /// where attention ignores queries, in those of the keys where it ignores keys, in those of
    /// the values where it ignores values, and in the temperature where it ignores that; and in
    /// the first weight of the feed-forward layer where the activation ignores its input. Their
    /// logits are the same.
    pub proof fn ignored_inputs_do_not_matter(
        &self,
        other: &Self,
        steps: Seq<X>,
        queries: bool,
        keys: bool,
        values: bool,
        temperature: bool,
        activation: bool,
    )
        requires
            self.same_arithmetic(other),
            self.noise.is_clean(),
            other.noise.is_clean(),
            self.model.valid(),
            other.model.valid(),
            self.model.dims == other.model.dims,
            0 < self.model.dims.num_heads,
            self.model.in_q == other.model.in_q,
            self.model.in_k == other.model.in_k,
            self.model.in_v == other.model.in_v,
            self.model.pos_emb == other.model.pos_emb,
            self.model.out == other.model.out,
            self.model.out_gain == other.model.out_gain,
            if temperature {
                forall|q: X, k: X, v: X, s: B, t: B| #[trigger]
                    value4::<X, X, X, B, X, AT>(self.attend, q, k, v, s) == #[trigger] value4::<
                        X,
                        X,
                        X,
                        B,
                        X,
                        AT,
                    >(self.attend, q, k, v, t)
            } else {
                self.model.beta == other.model.beta
            },
            queries ==> forall|q: X, p: X, k: X, v: X, t: B| #[trigger]
                value4::<X, X, X, B, X, AT>(self.attend, q, k, v, t) == #[trigger] value4::<
                    X,
                    X,
                    X,
                    B,
                    X,
                    AT,
                >(self.attend, p, k, v, t),
            keys ==> forall|q: X, k: X, p: X, v: X, t: B| #[trigger]
                value4::<X, X, X, B, X, AT>(self.attend, q, k, v, t) == #[trigger] value4::<
                    X,
                    X,
                    X,
                    B,
                    X,
                    AT,
                >(self.attend, q, p, v, t),
            values ==> forall|q: X, k: X, v: X, p: X, t: B| #[trigger]
                value4::<X, X, X, B, X, AT>(self.attend, q, k, v, t) == #[trigger] value4::<
                    X,
                    X,
                    X,
                    B,
                    X,
                    AT,
                >(self.attend, q, k, p, t),
            activation ==> forall|x: X, y: X| #[trigger]
                value1::<X, X, SW>(self.swish, x) == #[trigger] value1::<X, X, SW>(self.swish, y),
            forall|b: int|
                0 <= b < self.model.blocks@.len() ==> {
                    let (s, t) = (#[trigger] self.model.blocks@[b], other.model.blocks@[b]);
                    &&& queries || s.q@ == t.q@
                    &&& keys || s.k@ == t.k@
                    &&& values || s.v@ == t.v@
                    &&& activation || s.ff1 == t.ff1
                    &&& s.o == t.o
                    &&& s.ff2 == t.ff2
                },
        ensures
            self.logits(steps) == other.logits(steps),
    {
        let n = self.model.blocks@.len();
        self.same_sums(other, 0, self.model.in_q, steps, steps.len());
        self.same_sums(other, 1, self.model.in_k, steps, steps.len());
        self.same_sums(other, 2, self.model.in_v, steps, steps.len());
        self.ignored_in_blocks(
            other,
            steps,
            n,
            queries,
            keys,
            values,
            temperature,
            activation,
        );
    }

    proof fn same_sums(&self, other: &Self, idx: int, w: P, steps: Seq<X>, n: nat)
        requires
            self.same_arithmetic(other),
            self.noise.is_clean(),
            other.noise.is_clean(),
        ensures
            self.summed(idx, w, steps, n) == other.summed(idx, w, steps, n),
        decreases n,
    {
        if n > 0 {
            self.same_sums(other, idx, w, steps, (n - 1) as nat);
        }
    }

    #[verifier::spinoff_prover]
    proof fn ignored_in_heads(
        &self,
        other: &Self,
        b: int,
        x: X,
        n: nat,
        queries: bool,
        keys: bool,
        values: bool,
        temperature: bool,
    )
        requires
            self.same_arithmetic(other),
            self.noise.is_clean(),
            other.noise.is_clean(),
            self.model.dims == other.model.dims,
            if temperature {
                forall|q: X, k: X, v: X, s: B, t: B| #[trigger]
                    value4::<X, X, X, B, X, AT>(self.attend, q, k, v, s) == #[trigger] value4::<
                        X,
                        X,
                        X,
                        B,
                        X,
                        AT,
                    >(self.attend, q, k, v, t)
            } else {
                self.model.beta == other.model.beta
            },
            queries ==> forall|q: X, p: X, k: X, v: X, t: B| #[trigger]
                value4::<X, X, X, B, X, AT>(self.attend, q, k, v, t) == #[trigger] value4::<
                    X,
                    X,
                    X,
                    B,
                    X,
                    AT,
                >(self.attend, p, k, v, t),
            keys ==> forall|q: X, k: X, p: X, v: X, t: B| #[trigger]
                value4::<X, X, X, B, X, AT>(self.attend, q, k, v, t) == #[trigger] value4::<
                    X,
                    X,
                    X,
                    B,
                    X,
                    AT,
                >(self.attend, q, p, v, t),
            values ==> forall|q: X, k: X, v: X, p: X, t: B| #[trigger]
                value4::<X, X, X, B, X, AT>(self.attend, q, k, v, t) == #[trigger] value4::<
                    X,
                    X,
                    X,
                    B,
                    X,
                    AT,
                >(self.attend, q, k, p, t),
            queries || self.model.blocks@[b].q@ == other.model.blocks@[b].q@,
            keys || self.model.blocks@[b].k@ == other.model.blocks@[b].k@,
            values || self.model.blocks@[b].v@ == other.model.blocks@[b].v@,
        ensures
            self.joined(b, x, n) == other.joined(b, x, n),
        decreases n,
    {
        let h = if n == 0 {
            0
        } else {
            n - 1
        };
        let (s, t) = (self.model.blocks@[b], other.model.blocks@[b]);
        let f = |q: X, k: X, v: X, t: B| value4::<X, X, X, B, X, AT>(self.attend, q, k, v, t);
        let prod = |w: P| value2::<X, P, X, J>(self.product, x, w);
        let (t1, t2) = (self.temperature(), other.temperature());
        let (q1, q2) = (prod(s.q@[h]), prod(t.q@[h]));
        let (k1, k2) = (prod(s.k@[h]), prod(t.k@[h]));
        let (v1, v2) = (prod(s.v@[h]), prod(t.v@[h]));
        assert(f(q1, k1, v1, t1) == f(q2, k1, v1, t1));
        assert(f(q2, k1, v1, t1) == f(q2, k2, v1, t1));
        assert(f(q2, k2, v1, t1) == f(q2, k2, v2, t1));
        assert(f(q2, k2, v2, t1) == f(q2, k2, v2, t2));
        assert(self.head_out(b, h, x) == f(q1, k1, v1, t1));
        assert(other.head_out(b, h, x) == f(q2, k2, v2, t2));
        if n > 1 {
            self.ignored_in_heads(
                other,
                b,
                x,
                (n - 1) as nat,
                queries,
                keys,
                values,
                temperature,
            );
        }
    }

    proof fn ignored_in_blocks(
        &self,
        other: &Self,
        steps: Seq<X>,
        n: nat,
        queries: bool,
        keys: bool,
        values: bool,
        temperature: bool,
        activation: bool,
    )
        requires
            self.same_arithmetic(other),
            self.noise.is_clean(),
            other.noise.is_clean(),
            self.model.dims == other.model.dims,
            n <= self.model.blocks@.len(),
            self.model.pos_emb == other.model.pos_emb,
            self.encoded(steps) == other.encoded(steps),
            if temperature {
                forall|q: X, k: X, v: X, s: B, t: B| #[trigger]
                    value4::<X, X, X, B, X, AT>(self.attend, q, k, v, s) == #[trigger] value4::<
                        X,
                        X,
                        X,
                        B,
                        X,
                        AT,
                    >(self.attend, q, k, v, t)
            } else {
                self.model.beta == other.model.beta
            },
            queries ==> forall|q: X, p: X, k: X, v: X, t: B| #[trigger]
                value4::<X, X, X, B, X, AT>(self.attend, q, k, v, t) == #[trigger] value4::<
                    X,
                    X,
                    X,
                    B,
                    X,
                    AT,
                >(self.attend, p, k, v, t),
            keys ==> forall|q: X, k: X, p: X, v: X, t: B| #[trigger]
                value4::<X, X, X, B, X, AT>(self.attend, q, k, v, t) == #[trigger] value4::<
                    X,
                    X,
                    X,
                    B,
                    X,
                    AT,
                >(self.attend, q, p, v, t),
            values ==> forall|q: X, k: X, v: X, p: X, t: B| #[trigger]
                value4::<X, X, X, B, X, AT>(self.attend, q, k, v, t) == #[trigger] value4::<
                    X,
                    X,
                    X,
                    B,
                    X,
                    AT,
                >(self.attend, q, k, p, t),
            activation ==> forall|x: X, y: X| #[trigger]
                value1::<X, X, SW>(self.swish, x) == #[trigger] value1::<X, X, SW>(self.swish, y),
            forall|b: int|
                0 <= b < self.model.blocks@.len() ==> {
                    let (s, t) = (#[trigger] self.model.blocks@[b], other.model.blocks@[b]);
                    &&& queries || s.q@ == t.q@
                    &&& keys || s.k@ == t.k@
                    &&& values || s.v@ == t.v@
                    &&& activation || s.ff1 == t.ff1
                    &&& s.o == t.o
                    &&& s.ff2 == t.ff2
                },
        ensures
            self.tokens_after(steps, n) == other.tokens_after(steps, n),
        decreases n,
    {
        if n > 0 {
            let b = n - 1;
            self.ignored_in_blocks(
                other,
                steps,
                b as nat,
                queries,
                keys,
                values,
                temperature,
                activation,
            );
            let x = self.tokens_after(steps, b as nat);
            let heads = self.model.dims.num_heads as nat;
            let (s, t) = (self.model.blocks@[b], other.model.blocks@[b]);
            self.ignored_in_heads(other, b, x, heads, queries, keys, values, temperature);
            let y = value2::<X, X, X, A>(
                self.add,
                x,
                value2::<X, P, X, J>(self.product, self.joined(b, x, heads), s.o),
            );
            let (f1, f2) = (
                value2::<X, P, X, J>(self.product, y, s.ff1),
                value2::<X, P, X, J>(self.product, y, t.ff1),
            );
            assert(value1::<X, X, SW>(self.swish, f1) == value1::<X, X, SW>(self.swish, f2));
        }
    }
}

/// Where the parameters around the blocks stand.
proof fn outer_params<P>(m: SnnTransformer<P>)
    requires
        m.valid(),
        0 < m.dims.num_heads,
    ensures
        ({
            let all = m.param_seq();
            let end = all.len() as int;
            &&& end >= 7
            &&& all[0] == m.in_q
            &&& all[1] == m.in_k
            &&& all[2] == m.in_v
            &&& all[3] == m.pos_emb
            &&& block_start(m.dims.num_heads as int, m.blocks@.len() as int) == end - 3
            &&& all[end - 3] == m.out
            &&& all[end - 2] == m.out_gain
            &&& all[end - 1] == m.beta
        }),
{
    let n = m.blocks@.len();
    if n > 0 {
        assert(m.blocks@[0].valid(m.dims.num_heads as nat));
        params_stand_at_their_indices(m, 0, 0);
    } else {
        assert(0 * block_len(m.dims.num_heads as int) == 0);
        assert(blocks_seq(m.blocks@, 0) =~= Seq::empty());
    }
}

} // verus!
