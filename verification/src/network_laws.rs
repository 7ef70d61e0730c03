//! What holds of perceptrons and of the actor-critic network: layers can be taken apart, and the
//! activation stands between them, in front of the first and behind the last.

use vstd::arithmetic::div_mod::lemma_fundamental_div_mod_converse;
use vstd::prelude::*;

use crate::common::{rows_at, Activation, ActivationOps, Linear, Mlp};
use crate::ops::{value1, value2};
use crate::rl::{ActorCriticMlp, ActorCriticOps, InputProcessor, Output, OutputProcessor};

verus! {

impl<R, S, Q> ActivationOps<R, S, Q> {
    /// Each activation has its own function: it does not depend on the other two, and the identity
    /// on none.
    pub proof fn activations_are_apart<X>(&self, other: Self, x: X) where
        R: Fn(&X) -> X,
        S: Fn(&X) -> X,
        Q: Fn(&X) -> X,

        ensures
            other.relu == self.relu ==> other.activated::<X>(Activation::Relu, x)
                == self.activated::<X>(Activation::Relu, x),
            other.silu == self.silu ==> other.activated::<X>(Activation::Silu, x)
                == self.activated::<X>(Activation::Silu, x),
            other.pqn == self.pqn ==> other.activated::<X>(Activation::Pqn, x) == self.activated::<
                X,
            >(Activation::Pqn, x),
            self.activated::<X>(Activation::Identity, x) == x,
    {
    }
}

/// A looked-up row is the row of the table: row `i` of what is looked up is the row of the table
/// that index `i` names.
pub proof fn rows_are_looked_up<T>(table: Seq<T>, out_dim: int, indices: Seq<usize>, i: int)
    requires
        0 < out_dim,
        0 <= i < indices.len(),
        (indices[i] + 1) * out_dim <= table.len(),
    ensures
        rows_at(table, out_dim, indices).len() == indices.len() * out_dim,
        rows_at(table, out_dim, indices).subrange(i * out_dim, (i + 1) * out_dim)
            == table.subrange(indices[i] * out_dim, (indices[i] + 1) * out_dim),
{
    let all = rows_at(table, out_dim, indices);
    let (d, k) = (out_dim, indices[i] as int);
    assert(0 <= i * d && (i + 1) * d == i * d + d && (i + 1) * d <= indices.len() * d)
        by (nonlinear_arith)
        requires
            0 <= i < indices.len(),
            0 < d,
    ;
    assert(0 <= k * d && (k + 1) * d == k * d + d) by (nonlinear_arith)
        requires
            0 <= k,
            0 < d,
    ;
    let (row, wanted) = (all.subrange(i * d, (i + 1) * d), table.subrange(k * d, (k + 1) * d));
    assert forall|c: int| 0 <= c < d implies #[trigger] row[c] == wanted[c] by {
        lemma_fundamental_div_mod_converse(i * d + c, d, i, c);
    }
    assert(row =~= wanted);
}

/// Layers are affine: where a bias adds its worth, two inputs of a layer are as far apart behind it
/// as behind its weight alone, and a layer with a bias gives as much more than one without as the
/// bias is worth.
pub proof fn layers_are_affine<W, V, X, F: Fn(&W, &X) -> X, A: Fn(&X, &V) -> X>(
    linear: Linear<W, V>,
    product: F,
    add: A,
    x: X,
    y: X,
    worth: spec_fn(X) -> int,
    bias_worth: spec_fn(V) -> int,
)
    requires
        forall|z: X, b: V|
            worth(#[trigger] value2::<X, V, X, A>(add, z, b)) == worth(z) + bias_worth(b),
    ensures
        worth(linear.output::<X, F, A>(product, add, x)) - worth(
            linear.output::<X, F, A>(product, add, y),
        ) == worth(value2::<W, X, X, F>(product, linear.weight, x)) - worth(
            value2::<W, X, X, F>(product, linear.weight, y),
        ),
        worth(linear.output::<X, F, A>(product, add, x)) == worth(
            (Linear { weight: linear.weight, bias: None::<V> }).output::<X, F, A>(product, add, x),
        ) + match linear.bias {
            Some(b) => bias_worth(b),
            None => 0,
        },
{
}

/// A single layer has no activation.
pub proof fn one_layer_is_linear<L, X, R, S, Q, F: Fn(&L, &X) -> X>(
    mlp: Mlp<L>,
    ops: ActivationOps<R, S, Q>,
    layer: F,
    x: X,
) where R: Fn(&X) -> X, S: Fn(&X) -> X, Q: Fn(&X) -> X
    requires
        mlp.layers@.len() == 1,
    ensures
        mlp.after::<X, R, S, Q, F>(ops, layer, x, 1) == value2::<L, X, X, F>(
            layer,
            mlp.layers@[0],
            x,
        ),
{
    reveal_with_fuel(Mlp::after, 2);
}

/// A perceptron can be taken apart between two layers: it is the perceptron of the layers in
/// front, the activation, and the perceptron of the layers behind.
pub proof fn perceptrons_go_on<L, X, R, S, Q, F: Fn(&L, &X) -> X>(
    mlp: Mlp<L>,
    front: Mlp<L>,
    back: Mlp<L>,
    ops: ActivationOps<R, S, Q>,
    layer: F,
    x: X,
) where R: Fn(&X) -> X, S: Fn(&X) -> X, Q: Fn(&X) -> X
    requires
        front.layers@.len() > 0,
        back.layers@.len() > 0,
        mlp.layers@ == front.layers@ + back.layers@,
        front.activation == mlp.activation,
        back.activation == mlp.activation,
    ensures
        mlp.after::<X, R, S, Q, F>(ops, layer, x, mlp.layers@.len()) == back.after::<
            X,
            R,
            S,
            Q,
            F,
        >(
            ops,
            layer,
            ops.activated::<X>(
                mlp.activation,
                front.after::<X, R, S, Q, F>(ops, layer, x, front.layers@.len()),
            ),
            back.layers@.len(),
        ),
{
    layers_behind::<L, X, R, S, Q, F>(mlp, front, back, ops, layer, x, back.layers@.len());
}

proof fn layers_in_front<L, X, R, S, Q, F: Fn(&L, &X) -> X>(
    mlp: Mlp<L>,
    front: Mlp<L>,
    ops: ActivationOps<R, S, Q>,
    layer: F,
    x: X,
    n: nat,
) where R: Fn(&X) -> X, S: Fn(&X) -> X, Q: Fn(&X) -> X
    requires
        n < front.layers@.len() < mlp.layers@.len(),
        mlp.layers@.take(front.layers@.len() as int) == front.layers@,
        front.activation == mlp.activation,
    ensures
        mlp.after::<X, R, S, Q, F>(ops, layer, x, n) == front.after::<X, R, S, Q, F>(
            ops,
            layer,
            x,
            n,
        ),
    decreases n,
{
    if n > 0 {
        layers_in_front::<L, X, R, S, Q, F>(mlp, front, ops, layer, x, (n - 1) as nat);
        assert(front.layers@[n - 1] == mlp.layers@[n - 1]);
    }
}

proof fn layers_behind<L, X, R, S, Q, F: Fn(&L, &X) -> X>(
    mlp: Mlp<L>,
    front: Mlp<L>,
    back: Mlp<L>,
    ops: ActivationOps<R, S, Q>,
    layer: F,
    x: X,
    n: nat,
) where R: Fn(&X) -> X, S: Fn(&X) -> X, Q: Fn(&X) -> X
    requires
        front.layers@.len() > 0,
        n <= back.layers@.len(),
        back.layers@.len() > 0,
        mlp.layers@ == front.layers@ + back.layers@,
        front.activation == mlp.activation,
        back.activation == mlp.activation,
    ensures
        mlp.after::<X, R, S, Q, F>(ops, layer, x, front.layers@.len() + n) == back.after::<
            X,
            R,
            S,
            Q,
            F,
        >(
            ops,
            layer,
            ops.activated::<X>(
                mlp.activation,
                front.after::<X, R, S, Q, F>(ops, layer, x, front.layers@.len()),
            ),
            n,
        ),
    decreases n,
{
    let m = front.layers@.len();
    if n == 0 {
        let k = (m - 1) as nat;
        assert(mlp.layers@.take(m as int) =~= front.layers@);
        layers_in_front::<L, X, R, S, Q, F>(mlp, front, ops, layer, x, k);
        assert(mlp.layers@[m - 1] == front.layers@[m - 1]);
    } else {
        layers_behind::<L, X, R, S, Q, F>(mlp, front, back, ops, layer, x, (n - 1) as nat);
        assert(mlp.layers@[m + n - 1] == back.layers@[n - 1]);
    }
}

/// Without activations a perceptron is the product of its layers, in order: layers that each add
/// their worth to the worth of an input add up.
pub proof fn worths_of_layers_add_up<L, X, R, S, Q, F: Fn(&L, &X) -> X>(
    mlp: Mlp<L>,
    ops: ActivationOps<R, S, Q>,
    layer: F,
    x: X,
    worth: spec_fn(X) -> int,
    layer_worth: spec_fn(L) -> int,
    n: nat,
) where R: Fn(&X) -> X, S: Fn(&X) -> X, Q: Fn(&X) -> X
    requires
        mlp.activation == Activation::Identity,
        n <= mlp.layers@.len(),
        forall|l: L, y: X|
            worth(#[trigger] value2::<L, X, X, F>(layer, l, y)) == layer_worth(l) + worth(y),
    ensures
        worth(mlp.after::<X, R, S, Q, F>(ops, layer, x, n)) == worth(x) + mlp.layers@.take(
            n as int,
        ).fold_left(0int, |sum: int, l: L| sum + layer_worth(l)),
    decreases n,
{
    let add = |sum: int, l: L| sum + layer_worth(l);
    let some = mlp.layers@.take(n as int);
    if n > 0 {
        worths_of_layers_add_up::<L, X, R, S, Q, F>(
            mlp,
            ops,
            layer,
            x,
            worth,
            layer_worth,
            (n - 1) as nat,
        );
        assert(some.drop_last() =~= mlp.layers@.take(n - 1));
        assert(some.last() == mlp.layers@[n - 1]);
    }
}

impl<E, W, L, V> ActorCriticMlp<E, W, L, V> {
    /// The heads see activated features: what holds of everything behind the activation of the
    /// network holds of what reaches its heads.
    pub proof fn features_are_activated<X, R, S, Q, F, G, H, C>(
        &self,
        acts: ActivationOps<R, S, Q>,
        ops: ActorCriticOps<F, G, H, C>,
        x: X,
        holds: spec_fn(X) -> bool,
    ) where
        R: Fn(&X) -> X,
        S: Fn(&X) -> X,
        Q: Fn(&X) -> X,
        F: Fn(&E, &X) -> X,
        G: Fn(&W, &X) -> X,
        H: Fn(&L, &X) -> X,

        requires
            forall|y: X| holds(#[trigger] acts.activated::<X>(self.activation, y)),
        ensures
            holds(self.features::<X, R, S, Q, F, G, H, C>(acts, ops, x)),
    {
    }

    /// The network by hand: with one layer between the heads, the features are the activated
    /// embedding of the observation behind the layer and the activation. A table looks the
    /// observation up, a weight projects it.
    pub proof fn one_layer_features<X, R, S, Q, F, G, H, C>(
        &self,
        acts: ActivationOps<R, S, Q>,
        ops: ActorCriticOps<F, G, H, C>,
        x: X,
    ) where
        R: Fn(&X) -> X,
        S: Fn(&X) -> X,
        Q: Fn(&X) -> X,
        F: Fn(&E, &X) -> X,
        G: Fn(&W, &X) -> X,
        H: Fn(&L, &X) -> X,

        requires
            self.mlp.layers@.len() == 1,
        ensures
            ({
                let act = |y: X| acts.activated::<X>(self.activation, y);
                let embedded = match self.obs_embed {
                    InputProcessor::Embed(table) => value2::<E, X, X, F>(ops.lookup, table, x),
                    InputProcessor::Project(weight) => value2::<W, X, X, G>(ops.product, weight, x),
                };
                self.features::<X, R, S, Q, F, G, H, C>(acts, ops, x) == act(
                    value2::<L, X, X, H>(ops.layer, self.mlp.layers@[0], act(embedded)),
                )
            }),
    {
        let embedded = self.obs_embed.output::<X, F, G>(ops.lookup, ops.product, x);
        one_layer_is_linear::<L, X, R, S, Q, H>(
            self.mlp,
            acts,
            ops.layer,
            acts.activated::<X>(self.activation, embedded),
        );
    }

    /// Actor and critic see the same and do not see each other: the critic's value does not depend
    /// on the actor's head, nor the actor's output on the critic's. There is a value where there is
    /// a critic. A critic with the layer of the actor's head gives the actor's logits, or its mean,
    /// and the log-deviation is that of the head.
    pub proof fn heads_are_apart<X, R, S, Q, F, G, H, C>(
        &self,
        other: Self,
        acts: ActivationOps<R, S, Q>,
        ops: ActorCriticOps<F, G, H, C>,
        x: X,
    ) where
        R: Fn(&X) -> X,
        S: Fn(&X) -> X,
        Q: Fn(&X) -> X,
        F: Fn(&E, &X) -> X,
        G: Fn(&W, &X) -> X,
        H: Fn(&L, &X) -> X,
        C: Fn(&V) -> V,

        requires
            other.obs_embed == self.obs_embed,
            other.mlp == self.mlp,
            other.activation == self.activation,
        ensures
            ({
                let (pi, value) = self.outcome::<X, R, S, Q, F, G, H, C>(acts, ops, x);
                let (other_pi, other_value) = other.outcome::<X, R, S, Q, F, G, H, C>(acts, ops, x);
                &&& other.act_head == self.act_head ==> other_pi == pi
                &&& other.critic_head == self.critic_head ==> other_value == value
                &&& value is Some == self.critic_head is Some
                &&& match (self.act_head, self.critic_head) {
                    (OutputProcessor::Discrete(layer), Some(head)) => layer == head ==> pi == (
                    Output::<X, V>::Discrete { logits: value->Some_0 }),
                    (OutputProcessor::Continuous(layer, log_std), Some(head)) => layer == head
                        ==> pi == (Output::<X, V>::Continuous {
                        mean: value->Some_0,
                        log_std: value1::<V, V, C>(ops.copy, log_std),
                    }),
                    _ => true,
                }
            }),
    {
    }

    /// Two networks in a row are one: where the input head hands its input on, the network of the
    /// layers of both is the features of the second on the features of the first, an activation
    /// that changes nothing behind itself being applied once.
    pub proof fn networks_go_on<X, R, S, Q, F, G, H, C>(
        &self,
        front: Self,
        back: Self,
        acts: ActivationOps<R, S, Q>,
        ops: ActorCriticOps<F, G, H, C>,
        x: X,
    ) where
        R: Fn(&X) -> X,
        S: Fn(&X) -> X,
        Q: Fn(&X) -> X,
        F: Fn(&E, &X) -> X,
        G: Fn(&W, &X) -> X,
        H: Fn(&L, &X) -> X,

        requires
            front.mlp.layers@.len() > 0,
            back.mlp.layers@.len() > 0,
            self.mlp.layers@ == front.mlp.layers@ + back.mlp.layers@,
            self.mlp.activation == self.activation,
            front.activation == self.activation,
            front.mlp.activation == self.activation,
            back.activation == self.activation,
            back.mlp.activation == self.activation,
            front.obs_embed == self.obs_embed,
            forall|y: X|
                #[trigger] back.obs_embed.output::<X, F, G>(ops.lookup, ops.product, y) == y,
            forall|y: X|
                #[trigger] acts.activated::<X>(
                    self.activation,
                    acts.activated::<X>(self.activation, y),
                ) == acts.activated::<X>(self.activation, y),
        ensures
            self.features::<X, R, S, Q, F, G, H, C>(acts, ops, x) == back.features::<
                X,
                R,
                S,
                Q,
                F,
                G,
                H,
                C,
            >(acts, ops, front.features::<X, R, S, Q, F, G, H, C>(acts, ops, x)),
    {
        let embedded = self.obs_embed.output::<X, F, G>(ops.lookup, ops.product, x);
        let activated = acts.activated::<X>(self.activation, embedded);
        perceptrons_go_on::<L, X, R, S, Q, H>(
            self.mlp,
            front.mlp,
            back.mlp,
            acts,
            ops.layer,
            activated,
        );
        let middle = front.features::<X, R, S, Q, F, G, H, C>(acts, ops, x);
        assert(back.obs_embed.output::<X, F, G>(ops.lookup, ops.product, middle) == middle);
        assert(acts.activated::<X>(self.activation, middle) == middle);
    }
}

} // verus!
