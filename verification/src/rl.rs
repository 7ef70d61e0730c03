//! Actor-critic networks: spaces, input and output heads, and the order in
//! which the parts are applied.

use vstd::prelude::*;

use crate::common::{Activation, ActivationOps, EsClass, Mlp};
use crate::ops::{apply1, apply2, computes1, computes2, made, make, makes, value1, value2};

verus! {

/// An action or observation space.
#[derive(Debug, Clone, Copy, PartialEq, Eq, Structural)]
pub enum Space {
    /// One of `n` values.
    Discrete {
        /// How many values.
        n: usize,
    },
    /// A vector of `size` numbers.
    Continuous {
        /// How many numbers.
        size: usize,
    },
}

/// What the actor gives: logits, or a mean and the logarithm of a deviation.
#[derive(Debug, Clone)]
pub enum Output<M, V> {
    /// The logits of a discrete space.
    Discrete {
        /// The logits.
        logits: M,
    },
    /// The mean and the log-deviation of a continuous space.
    Continuous {
        /// The mean.
        mean: M,
        /// The log-deviation.
        log_std: V,
    },
}

/// The input head: an embedding of a discrete space, or a projection of a continuous one.
pub enum InputProcessor<E, W> {
    /// An embedding table.
    Embed(E),
    /// A projection weight.
    Project(W),
}

impl<E, W> InputProcessor<E, W> {
    /// Whether the head is one for a space: an embedding of its values, or a projection of its
    /// numbers.
    pub open spec fn is_for<F: Fn((usize, usize)) -> E, G: Fn((usize, usize)) -> W>(
        self,
        space: Space,
        n_embd: usize,
        embedding: F,
        projection: G,
    ) -> bool {
        match (space, self) {
            (Space::Discrete { n }, InputProcessor::Embed(table)) => made::<(usize, usize), E, F>(
                embedding,
                (n, n_embd),
                table,
            ),
            (Space::Continuous { size }, InputProcessor::Project(weight)) => made::<
                (usize, usize),
                W,
                G,
            >(projection, (size, n_embd), weight),
            _ => false,
        }
    }

    /// The input head of a space: `embedding` and `projection` make tables and weights of an input
    /// and an output dimension.
    pub fn new<F: Fn((usize, usize)) -> E, G: Fn((usize, usize)) -> W>(
        space: &Space,
        n_embd: usize,
        embedding: &F,
        projection: &G,
    ) -> (head: Self)
        requires
            makes::<(usize, usize), E, F>(*embedding),
            makes::<(usize, usize), W, G>(*projection),
        ensures
            head.is_for::<F, G>(*space, n_embd, *embedding, *projection),
    {
        match space {
            Space::Discrete { n } => InputProcessor::Embed(make(embedding, (*n, n_embd))),
            Space::Continuous { size } => InputProcessor::Project(
                make(projection, (*size, n_embd)),
            ),
        }
    }

    /// What the head makes of an observation.
    pub open spec fn output<X, F: Fn(&E, &X) -> X, G: Fn(&W, &X) -> X>(
        &self,
        lookup: F,
        product: G,
        x: X,
    ) -> X {
        match self {
            InputProcessor::Embed(table) => value2::<E, X, X, F>(lookup, *table, x),
            InputProcessor::Project(weight) => value2::<W, X, X, G>(product, *weight, x),
        }
    }

    /// Applies the head: looks rows up for a discrete space, projects for a continuous one.
    pub fn forward<X, F: Fn(&E, &X) -> X, G: Fn(&W, &X) -> X>(
        &self,
        lookup: &F,
        product: &G,
        x: &X,
    ) -> (y: X)
        requires
            computes2::<E, X, X, F>(*lookup),
            computes2::<W, X, X, G>(*product),
        ensures
            y == self.output::<X, F, G>(*lookup, *product, *x),
    {
        match self {
            InputProcessor::Embed(table) => apply2(lookup, table, x),
            InputProcessor::Project(weight) => apply2(product, weight, x),
        }
    }

    /// The update class of the head.
    pub fn es_class(&self) -> (class: EsClass)
        ensures
            class == (match self {
                InputProcessor::Embed(_) => EsClass::EmbParam,
                InputProcessor::Project(_) => EsClass::MmParam,
            }),
    {
        match self {
            InputProcessor::Embed(_) => EsClass::EmbParam,
            InputProcessor::Project(_) => EsClass::MmParam,
        }
    }
}

/// The output head: logits, or a mean with a log-deviation.
pub enum OutputProcessor<L, V> {
    /// A linear layer to the logits.
    Discrete(L),
    /// A linear layer to the mean, and the log-deviation.
    Continuous(L, V),
}

impl<L, V> OutputProcessor<L, V> {
    /// Whether the head is one for a space: a layer to its logits, or a layer to its mean with a
    /// log-deviation.
    pub open spec fn is_for<F: Fn((usize, usize)) -> L, Z: Fn(usize) -> V>(
        self,
        space: Space,
        n_embd: usize,
        linear: F,
        zeros: Z,
    ) -> bool {
        match (space, self) {
            (Space::Discrete { n }, OutputProcessor::Discrete(layer)) => made::<
                (usize, usize),
                L,
                F,
            >(linear, (n_embd, n), layer),
            (Space::Continuous { size }, OutputProcessor::Continuous(layer, log_std)) => made::<
                (usize, usize),
                L,
                F,
            >(linear, (n_embd, size), layer) && made::<usize, V, Z>(zeros, size, log_std),
            _ => false,
        }
    }

    /// The output head of a space: `linear` makes a layer of an input and an output dimension,
    /// `zeros` a log-deviation of a dimension.
    pub fn new<F: Fn((usize, usize)) -> L, Z: Fn(usize) -> V>(
        space: &Space,
        n_embd: usize,
        linear: &F,
        zeros: &Z,
    ) -> (head: Self)
        requires
            makes::<(usize, usize), L, F>(*linear),
            makes::<usize, V, Z>(*zeros),
        ensures
            head.is_for::<F, Z>(*space, n_embd, *linear, *zeros),
    {
        match space {
            Space::Discrete { n } => OutputProcessor::Discrete(make(linear, (n_embd, *n))),
            Space::Continuous { size } => OutputProcessor::Continuous(
                make(linear, (n_embd, *size)),
                make(zeros, *size),
            ),
        }
    }

    /// What the head makes of an input.
    pub open spec fn output<X, F: Fn(&L, &X) -> X, C: Fn(&V) -> V>(
        &self,
        layer: F,
        copy: C,
        x: X,
    ) -> Output<X, V> {
        match self {
            OutputProcessor::Discrete(linear) => Output::Discrete {
                logits: value2::<L, X, X, F>(layer, *linear, x),
            },
            OutputProcessor::Continuous(linear, log_std) => Output::Continuous {
                mean: value2::<L, X, X, F>(layer, *linear, x),
                log_std: value1::<V, V, C>(copy, *log_std),
            },
        }
    }

    /// Applies the head.
    pub fn forward<X, F: Fn(&L, &X) -> X, C: Fn(&V) -> V>(
        &self,
        layer: &F,
        copy: &C,
        x: &X,
    ) -> (y: Output<X, V>)
        requires
            computes2::<L, X, X, F>(*layer),
            computes1::<V, V, C>(*copy),
        ensures
            y == self.output::<X, F, C>(*layer, *copy, *x),
    {
        match self {
            OutputProcessor::Discrete(linear) => Output::Discrete {
                logits: apply2(layer, linear, x),
            },
            OutputProcessor::Continuous(linear, log_std) => Output::Continuous {
                mean: apply2(layer, linear, x),
                log_std: apply1(copy, log_std),
            },
        }
    }

    /// Whether the head is for a discrete space.
    pub fn is_discrete(&self) -> (b: bool)
        ensures
            b == (self is Discrete),
    {
        match self {
            OutputProcessor::Discrete(_) => true,
            OutputProcessor::Continuous(_, _) => false,
        }
    }
}

/// The dimensions of the hidden layers between `n_layers` layers of one dimension.
pub open spec fn hidden_seq(n_embd: usize, n_layers: usize) -> Seq<usize> {
    Seq::new(
        (if n_layers == 0 {
            0
        } else {
            n_layers - 1
        }) as nat,
        |i: int| n_embd,
    )
}

/// The dimensions of the hidden layers between `n_layers` layers of one dimension.
pub fn hidden_dims(n_embd: usize, n_layers: usize) -> (dims: Vec<usize>)
    ensures
        dims@ == hidden_seq(n_embd, n_layers),
{
    let n: usize = n_layers.saturating_sub(1);
    let mut dims: Vec<usize> = Vec::with_capacity(n);
    let mut i: usize = 0;
    while i < n
        invariant
            i <= n,
            dims@ == Seq::new(i as nat, |k: int| n_embd),
        decreases n - i,
    {
        dims.push(n_embd);
        i = i + 1;
        proof {
            assert(dims@ =~= Seq::new(i as nat, |k: int| n_embd));
        }
    }
    dims
}

/// An actor-critic network.
pub struct ActorCriticMlp<E, W, L, V> {
    /// The input head.
    pub obs_embed: InputProcessor<E, W>,
    /// The actor head.
    pub act_head: OutputProcessor<L, V>,
    /// The network between them.
    pub mlp: Mlp<L>,
    /// The critic head, if there is one.
    pub critic_head: Option<L>,
    /// The activation in front of and behind the network.
    pub activation: Activation,
}

/// The arithmetic of an actor-critic network.
pub struct ActorCriticOps<F, G, H, C> {
    /// Looks up rows of an embedding.
    pub lookup: F,
    /// Projects an observation.
    pub product: G,
    /// Applies a linear layer.
    pub layer: H,
    /// Copies a log-deviation.
    pub copy: C,
}

impl<E, W, L, V> ActorCriticMlp<E, W, L, V> {
    /// The network, with a critic head where one is wanted: the heads of the two spaces, and
    /// `n_layers` layers (at least one) between them.
    pub fn new<
        F: Fn((usize, usize)) -> E,
        G: Fn((usize, usize)) -> W,
        H: Fn((usize, usize)) -> L,
        Z: Fn(usize) -> V,
    >(
        n_embd: usize,
        obs_space: &Space,
        act_space: &Space,
        n_layers: usize,
        activation: Activation,
        have_critic: bool,
        embedding: &F,
        projection: &G,
        linear: &H,
        zeros: &Z,
    ) -> (net: Self)
        requires
            makes::<(usize, usize), E, F>(*embedding),
            makes::<(usize, usize), W, G>(*projection),
            makes::<(usize, usize), L, H>(*linear),
            makes::<usize, V, Z>(*zeros),
        ensures
            net.activation == activation,
            net.mlp.activation == activation,
            net.obs_embed.is_for::<F, G>(*obs_space, n_embd, *embedding, *projection),
            net.act_head.is_for::<H, Z>(*act_space, n_embd, *linear, *zeros),
            net.mlp.layers@.len() == (if n_layers == 0 {
                1
            } else {
                n_layers as int
            }),
            forall|i: int|
                0 <= i < net.mlp.layers@.len() ==> made::<(usize, usize), L, H>(
                    *linear,
                    (n_embd, n_embd),
                    #[trigger] net.mlp.layers@[i],
                ),
            match net.critic_head {
                Some(head) => have_critic && made::<(usize, usize), L, H>(
                    *linear,
                    (n_embd, 1),
                    head,
                ),
                None => !have_critic,
            },
    {
        let obs_embed = InputProcessor::new(obs_space, n_embd, embedding, projection);
        let act_head = OutputProcessor::new(act_space, n_embd, linear, zeros);
        let hidden = hidden_dims(n_embd, n_layers);
        let mlp = Mlp::new(n_embd, n_embd, hidden.as_slice(), activation, linear);
        let critic_head = if have_critic {
            Some(make(linear, (n_embd, 1)))
        } else {
            None
        };
        ActorCriticMlp { obs_embed, act_head, mlp, critic_head, activation }
    }

    /// What reaches the heads: the embedded observation behind the activation, the network, and
    /// the activation again.
    pub open spec fn features<X, R, S, Q, F, G, H, C>(
        &self,
        acts: ActivationOps<R, S, Q>,
        ops: ActorCriticOps<F, G, H, C>,
        x: X,
    ) -> X where
        R: Fn(&X) -> X,
        S: Fn(&X) -> X,
        Q: Fn(&X) -> X,
        F: Fn(&E, &X) -> X,
        G: Fn(&W, &X) -> X,
        H: Fn(&L, &X) -> X,
     {
        let embedded = self.obs_embed.output::<X, F, G>(ops.lookup, ops.product, x);
        let hidden = self.mlp.after::<X, R, S, Q, H>(
            acts,
            ops.layer,
            acts.activated::<X>(self.activation, embedded),
            self.mlp.layers@.len(),
        );
        acts.activated::<X>(self.activation, hidden)
    }

    /// The actor's output and, where there is a critic, its value, both of the features.
    pub open spec fn outcome<X, R, S, Q, F, G, H, C>(
        &self,
        acts: ActivationOps<R, S, Q>,
        ops: ActorCriticOps<F, G, H, C>,
        x: X,
    ) -> (Output<X, V>, Option<X>) where
        R: Fn(&X) -> X,
        S: Fn(&X) -> X,
        Q: Fn(&X) -> X,
        F: Fn(&E, &X) -> X,
        G: Fn(&W, &X) -> X,
        H: Fn(&L, &X) -> X,
        C: Fn(&V) -> V,
     {
        let y = self.features::<X, R, S, Q, F, G, H, C>(acts, ops, x);
        (
            self.act_head.output::<X, H, C>(ops.layer, ops.copy, y),
            match self.critic_head {
                Some(head) => Some(value2::<L, X, X, H>(ops.layer, head, y)),
                None => None,
            },
        )
    }

    /// Applies the network: the actor's output and, where there is a critic, its value.
    pub fn forward<X, R, S, Q, F, G, H, C>(
        &self,
        acts: &ActivationOps<R, S, Q>,
        ops: &ActorCriticOps<F, G, H, C>,
        x: &X,
    ) -> (r: (Output<X, V>, Option<X>)) where
        R: Fn(&X) -> X,
        S: Fn(&X) -> X,
        Q: Fn(&X) -> X,
        F: Fn(&E, &X) -> X,
        G: Fn(&W, &X) -> X,
        H: Fn(&L, &X) -> X,
        C: Fn(&V) -> V,

        requires
            acts.valid::<X>(),
            computes2::<E, X, X, F>(ops.lookup),
            computes2::<W, X, X, G>(ops.product),
            computes2::<L, X, X, H>(ops.layer),
            computes1::<V, V, C>(ops.copy),
        ensures
            r == self.outcome::<X, R, S, Q, F, G, H, C>(*acts, *ops, *x),
    {
        let embedded: X = self.obs_embed.forward(&ops.lookup, &ops.product, x);
        let activated: X = acts.apply(self.activation, embedded);
        let hidden: X = self.mlp.forward(acts, &ops.layer, activated);
        let y: X = acts.apply(self.activation, hidden);
        let pi = self.act_head.forward(&ops.layer, &ops.copy, &y);
        let critic = match &self.critic_head {
            Some(head) => Some(apply2(&ops.layer, head, &y)),
            None => None,
        };
        (pi, critic)
    }
}

} // verus!
