//! Model layers: update classes, activations, perceptrons, and parameter keys.
//!
//! Layers are generic in what their weights and activations are; the arithmetic
//! is handed in.

use vstd::prelude::*;

use crate::ops::{apply1, apply2, computes1, computes2, made, make, makes, value1, value2};

verus! {

// ---------------------------------------------------------------------------
// Update classes
// ---------------------------------------------------------------------------
/// A plain parameter, a scalar or a vector.
pub const PARAM: i32 = 0;

/// A matrix-multiply weight.
pub const MM_PARAM: i32 = 1;

/// An embedding table.
pub const EMB_PARAM: i32 = 2;

/// Excluded from updates.
pub const EXCLUDED: i32 = 3;

/// The update class of a parameter.
#[derive(Debug, Clone, Copy, PartialEq, Eq, Structural)]
pub enum EsClass {
    /// A plain parameter.
    Param,
    /// A matrix-multiply weight.
    MmParam,
    /// An embedding table.
    EmbParam,
    /// Excluded from updates.
    Excluded,
}

impl EsClass {
    /// The number of the class.
    pub open spec fn number(self) -> i32 {
        match self {
            EsClass::Param => PARAM,
            EsClass::MmParam => MM_PARAM,
            EsClass::EmbParam => EMB_PARAM,
            EsClass::Excluded => EXCLUDED,
        }
    }

    /// The number of the class.
    pub fn to_i32(self) -> (n: i32)
        ensures
            n == self.number(),
    {
        match self {
            EsClass::Param => PARAM,
            EsClass::MmParam => MM_PARAM,
            EsClass::EmbParam => EMB_PARAM,
            EsClass::Excluded => EXCLUDED,
        }
    }
}

/// Classes have different numbers.
pub proof fn class_numbers_differ(a: EsClass, b: EsClass)
    requires
        a.number() == b.number(),
    ensures
        a == b,
{
}

// ---------------------------------------------------------------------------
// Activations
// ---------------------------------------------------------------------------
/// Activation functions.
#[derive(Debug, Clone, Copy, PartialEq, Eq, Structural)]
pub enum Activation {
    /// Rectified linear unit.
    Relu,
    /// The input times its sigmoid.
    Silu,
    /// A rectified linear unit behind a layer normalization.
    Pqn,
    /// The identity.
    Identity,
}

/// The activation functions.
pub struct ActivationOps<R, S, Q> {
    /// Rectified linear unit.
    pub relu: R,
    /// The input times its sigmoid.
    pub silu: S,
    /// A rectified linear unit behind a layer normalization.
    pub pqn: Q,
}

impl<R, S, Q> ActivationOps<R, S, Q> {
    /// Each function gives one result for each argument.
    pub open spec fn valid<X>(&self) -> bool where
        R: Fn(&X) -> X,
        S: Fn(&X) -> X,
        Q: Fn(&X) -> X,
     {
        &&& computes1::<X, X, R>(self.relu)
        &&& computes1::<X, X, S>(self.silu)
        &&& computes1::<X, X, Q>(self.pqn)
    }

    /// An input behind an activation.
    pub open spec fn activated<X>(&self, activation: Activation, x: X) -> X where
        R: Fn(&X) -> X,
        S: Fn(&X) -> X,
        Q: Fn(&X) -> X,
     {
        match activation {
            Activation::Relu => value1::<X, X, R>(self.relu, x),
            Activation::Silu => value1::<X, X, S>(self.silu, x),
            Activation::Pqn => value1::<X, X, Q>(self.pqn, x),
            Activation::Identity => x,
        }
    }

    /// Applies an activation.
    pub fn apply<X>(&self, activation: Activation, x: X) -> (y: X) where
        R: Fn(&X) -> X,
        S: Fn(&X) -> X,
        Q: Fn(&X) -> X,

        requires
            self.valid::<X>(),
        ensures
            y == self.activated::<X>(activation, x),
    {
        match activation {
            Activation::Relu => apply1(&self.relu, &x),
            Activation::Silu => apply1(&self.silu, &x),
            Activation::Pqn => apply1(&self.pqn, &x),
            Activation::Identity => x,
        }
    }
}

// ---------------------------------------------------------------------------
// Layers
// ---------------------------------------------------------------------------
/// A matrix-multiply weight, of shape `(out_dim, in_dim)`.
pub struct Mm<P> {
    /// The weight.
    pub weight: P,
}

impl<P> Mm<P> {
    /// A weight; `random` makes one of a shape and the number of inputs, which sets its scale.
    pub fn new<F: Fn(([usize; 2], usize)) -> P>(in_dim: usize, out_dim: usize, random: &F) -> (mm:
        Self)
        requires
            makes::<([usize; 2], usize), P, F>(*random),
        ensures
            made::<([usize; 2], usize), P, F>(*random, ([out_dim, in_dim], in_dim), mm.weight),
    {
        Mm { weight: make(random, ([out_dim, in_dim], in_dim)) }
    }

    /// The update class of matrix-multiply weights.
    pub fn es_class() -> (class: EsClass)
        ensures
            class == EsClass::MmParam,
    {
        EsClass::MmParam
    }
}

/// A transposed matrix-multiply weight, of shape `(in_dim, out_dim)`.
pub struct Tmm<P> {
    /// The weight.
    pub weight: P,
}

impl<P> Tmm<P> {
    /// A weight; `random` makes one of a shape and the number of inputs, which sets its scale.
    pub fn new<F: Fn(([usize; 2], usize)) -> P>(in_dim: usize, out_dim: usize, random: &F) -> (tmm:
        Self)
        requires
            makes::<([usize; 2], usize), P, F>(*random),
        ensures
            made::<([usize; 2], usize), P, F>(*random, ([in_dim, out_dim], in_dim), tmm.weight),
    {
        Tmm { weight: make(random, ([in_dim, out_dim], in_dim)) }
    }

    /// The update class of transposed matrix-multiply weights.
    pub fn es_class() -> (class: EsClass)
        ensures
            class == EsClass::MmParam,
    {
        EsClass::MmParam
    }
}

/// A plain parameter.
pub struct Parameter<P> {
    /// The value.
    pub value: P,
}

impl<P> Parameter<P> {
    /// A parameter of a value.
    pub fn new(value: P) -> (parameter: Self)
        ensures
            parameter.value == value,
    {
        Parameter { value }
    }

    /// The update class of plain parameters.
    pub fn es_class() -> (class: EsClass)
        ensures
            class == EsClass::Param,
    {
        EsClass::Param
    }
}

/// An embedding table, of shape `(in_dim, out_dim)`.
pub struct Embedding<P> {
    /// The table.
    pub table: P,
}

impl<P> Embedding<P> {
    /// A table; `random` makes one of a shape and the number of rows, which sets its scale.
    pub fn new<F: Fn(([usize; 2], usize)) -> P>(in_dim: usize, out_dim: usize, random: &F) -> (emb:
        Self)
        requires
            makes::<([usize; 2], usize), P, F>(*random),
        ensures
            made::<([usize; 2], usize), P, F>(*random, ([in_dim, out_dim], in_dim), emb.table),
    {
        Embedding { table: make(random, ([in_dim, out_dim], in_dim)) }
    }

    /// The update class of embedding tables.
    pub fn es_class() -> (class: EsClass)
        ensures
            class == EsClass::EmbParam,
    {
        EsClass::EmbParam
    }
}

/// The rows of a table that the indices name, one behind the other.
pub open spec fn rows_at<T>(table: Seq<T>, out_dim: int, indices: Seq<usize>) -> Seq<T> {
    Seq::new(
        (indices.len() * out_dim) as nat,
        |p: int| table[indices[p / out_dim] * out_dim + p % out_dim],
    )
}

/// Looks rows of a table up, by index; the rows are `out_dim` wide.
pub fn select_rows<T: Copy>(table: &[T], out_dim: usize, indices: &[usize]) -> (rows: Vec<T>)
    requires
        forall|i: int|
            0 <= i < indices@.len() ==> (#[trigger] indices@[i] + 1) * out_dim <= table@.len(),
        indices@.len() * out_dim <= usize::MAX,
    ensures
        rows@ == rows_at(table@, out_dim as int, indices@),
{
    let total: usize = table.len();
    let mut rows: Vec<T> = Vec::with_capacity(indices.len() * out_dim);
    let mut i: usize = 0;
    proof {
        assert(0 * out_dim == 0) by (nonlinear_arith);
    }
    while i < indices.len()
        invariant
            total == table@.len(),
            i <= indices@.len(),
            rows@.len() == i * out_dim,
            forall|k: int|
                0 <= k < indices@.len() ==> (#[trigger] indices@[k] + 1) * out_dim <= table@.len(),
            forall|p: int|
                0 <= p < rows@.len() ==> #[trigger] rows@[p] == table@[indices@[p / out_dim as int]
                    * out_dim + p % out_dim as int],
        decreases indices@.len() - i,
    {
        let row: usize = indices[i];
        let mut j: usize = 0;
        while j < out_dim
            invariant
                i < indices@.len(),
                row == indices@[i as int],
                total == table@.len(),
                (row + 1) * out_dim <= total,
                j <= out_dim,
                rows@.len() == i * out_dim + j,
                forall|p: int|
                    0 <= p < rows@.len() ==> #[trigger] rows@[p] == table@[indices@[p
                        / out_dim as int] * out_dim + p % out_dim as int],
            decreases out_dim - j,
        {
            proof {
                assert((row + 1) * out_dim == row * out_dim + out_dim) by (nonlinear_arith);
                assert(0 <= row * out_dim) by (nonlinear_arith);
                let p = i * out_dim + j;
                assert(p / out_dim as int == i && p % out_dim as int == j) by (nonlinear_arith)
                    requires
                        p == i * out_dim + j,
                        0 <= j < out_dim,
                        0 <= i,
                ;
            }
            rows.push(table[row * out_dim + j]);
            j = j + 1;
        }
        proof {
            assert((i + 1) * out_dim == i * out_dim + out_dim) by (nonlinear_arith);
        }
        i = i + 1;
    }
    proof {
        assert(rows@ =~= rows_at(table@, out_dim as int, indices@));
    }
    rows
}

/// A linear layer: a weight and, if used, a bias.
pub struct Linear<W, V> {
    /// The weight.
    pub weight: W,
    /// The bias.
    pub bias: Option<V>,
}

impl<W, V> Linear<W, V> {
    /// A linear layer from `in_dim` to `out_dim`: `weight` makes a weight of the two dimensions,
    /// `zeros` a bias of the output dimension.
    pub fn new<F: Fn((usize, usize)) -> W, Z: Fn(usize) -> V>(
        in_dim: usize,
        out_dim: usize,
        use_bias: bool,
        weight: &F,
        zeros: &Z,
    ) -> (layer: Self)
        requires
            makes::<(usize, usize), W, F>(*weight),
            makes::<usize, V, Z>(*zeros),
        ensures
            made::<(usize, usize), W, F>(*weight, (in_dim, out_dim), layer.weight),
            match layer.bias {
                Some(bias) => use_bias && made::<usize, V, Z>(*zeros, out_dim, bias),
                None => !use_bias,
            },
    {
        let weight = make(weight, (in_dim, out_dim));
        let bias = if use_bias {
            Some(make(zeros, out_dim))
        } else {
            None
        };
        Linear { weight, bias }
    }

    /// What the layer makes of an input: the product, plus the bias where there is one.
    pub open spec fn output<X, F: Fn(&W, &X) -> X, A: Fn(&X, &V) -> X>(
        &self,
        product: F,
        add: A,
        x: X,
    ) -> X {
        let y = value2::<W, X, X, F>(product, self.weight, x);
        match self.bias {
            Some(bias) => value2::<X, V, X, A>(add, y, bias),
            None => y,
        }
    }

    /// Applies the layer.
    pub fn forward<X, F: Fn(&W, &X) -> X, A: Fn(&X, &V) -> X>(
        &self,
        product: &F,
        add: &A,
        x: &X,
    ) -> (y: X)
        requires
            computes2::<W, X, X, F>(*product),
            computes2::<X, V, X, A>(*add),
        ensures
            y == self.output::<X, F, A>(*product, *add, *x),
    {
        let y = apply2(product, &self.weight, x);
        match &self.bias {
            Some(bias) => apply2(add, &y, bias),
            None => y,
        }
    }
}

/// The dimensions of layer `i` of a perceptron: each layer takes what the layer before it gives.
pub open spec fn layer_dims(in_dim: usize, out_dim: usize, hidden: Seq<usize>, i: int) -> (
    usize,
    usize,
) {
    (
        if i == 0 {
            in_dim
        } else {
            hidden[i - 1]
        },
        if i == hidden.len() {
            out_dim
        } else {
            hidden[i]
        },
    )
}

/// The layers of a perceptron fit each other, from the input to the output dimension.
pub proof fn layers_fit(in_dim: usize, out_dim: usize, hidden: Seq<usize>, i: int)
    requires
        0 <= i < hidden.len(),
    ensures
        layer_dims(in_dim, out_dim, hidden, i).1 == layer_dims(in_dim, out_dim, hidden, i + 1).0,
        layer_dims(in_dim, out_dim, hidden, 0).0 == in_dim,
        layer_dims(in_dim, out_dim, hidden, hidden.len() as int).1 == out_dim,
{
}

/// A multi-layer perceptron.
pub struct Mlp<L> {
    /// The layers.
    pub layers: Vec<L>,
    /// The activation between layers.
    pub activation: Activation,
}

impl<L> Mlp<L> {
    /// A perceptron; `layer` makes a layer of its two dimensions.
    pub fn new<F: Fn((usize, usize)) -> L>(
        in_dim: usize,
        out_dim: usize,
        hidden_dims: &[usize],
        activation: Activation,
        layer: &F,
    ) -> (mlp: Self)
        requires
            makes::<(usize, usize), L, F>(*layer),
            hidden_dims@.len() < usize::MAX,
        ensures
            mlp.activation == activation,
            mlp.layers@.len() == hidden_dims@.len() + 1,
            forall|i: int|
                0 <= i < mlp.layers@.len() ==> made::<(usize, usize), L, F>(
                    *layer,
                    layer_dims(in_dim, out_dim, hidden_dims@, i),
                    #[trigger] mlp.layers@[i],
                ),
    {
        let n: usize = hidden_dims.len();
        let mut layers: Vec<L> = Vec::with_capacity(n + 1);
        let mut i: usize = 0;
        while i <= n
            invariant
                n == hidden_dims@.len(),
                n < usize::MAX,
                i <= n + 1,
                layers@.len() == i,
                makes::<(usize, usize), L, F>(*layer),
                forall|k: int|
                    0 <= k < i ==> made::<(usize, usize), L, F>(
                        *layer,
                        layer_dims(in_dim, out_dim, hidden_dims@, k),
                        #[trigger] layers@[k],
                    ),
            decreases n + 1 - i,
        {
            let input: usize = if i == 0 {
                in_dim
            } else {
                hidden_dims[i - 1]
            };
            let output: usize = if i == n {
                out_dim
            } else {
                hidden_dims[i]
            };
            layers.push(make(layer, (input, output)));
            i = i + 1;
        }
        Mlp { layers, activation }
    }

    /// What the first `n` layers make of an input: the activation follows every layer but the
    /// last.
    pub open spec fn after<X, R, S, Q, F: Fn(&L, &X) -> X>(
        &self,
        ops: ActivationOps<R, S, Q>,
        layer: F,
        x: X,
        n: nat,
    ) -> X where R: Fn(&X) -> X, S: Fn(&X) -> X, Q: Fn(&X) -> X
        decreases n,
    {
        if n == 0 {
            x
        } else {
            let y = value2::<L, X, X, F>(
                layer,
                self.layers@[n - 1],
                self.after::<X, R, S, Q, F>(ops, layer, x, (n - 1) as nat),
            );
            if n == self.layers@.len() {
                y
            } else {
                ops.activated::<X>(self.activation, y)
            }
        }
    }

    /// Applies all layers, with the activation between them.
    pub fn forward<X, R, S, Q, F: Fn(&L, &X) -> X>(
        &self,
        ops: &ActivationOps<R, S, Q>,
        layer: &F,
        x: X,
    ) -> (y: X) where R: Fn(&X) -> X, S: Fn(&X) -> X, Q: Fn(&X) -> X
        requires
            ops.valid::<X>(),
            computes2::<L, X, X, F>(*layer),
        ensures
            y == self.after::<X, R, S, Q, F>(*ops, *layer, x, self.layers@.len()),
    {
        let n: usize = self.layers.len();
        let ghost start = x;
        let mut out: X = x;
        let mut i: usize = 0;
        while i < n
            invariant
                n == self.layers@.len(),
                i <= n,
                ops.valid::<X>(),
                computes2::<L, X, X, F>(*layer),
                out == self.after::<X, R, S, Q, F>(*ops, *layer, start, i as nat),
            decreases n - i,
        {
            out = apply2(layer, &self.layers[i], &out);
            if i != n - 1 {
                out = ops.apply(self.activation, out);
            }
            i = i + 1;
        }
        out
    }
}

// ---------------------------------------------------------------------------
// Keys
// ---------------------------------------------------------------------------
/// The key of leaf `i`.
pub open spec fn leaf_key(base_key: u64, i: int) -> u64 {
    ((base_key + i + 1) % 0x1_0000_0000_0000_0000) as u64
}

/// One key per leaf.
pub fn simple_es_tree_key(num_leaves: usize, base_key: u64) -> (keys: Vec<u64>)
    ensures
        keys@ == Seq::new(num_leaves as nat, |i: int| leaf_key(base_key, i)),
{
    let mut keys: Vec<u64> = Vec::with_capacity(num_leaves);
    let mut i: usize = 0;
    while i < num_leaves
        invariant
            i <= num_leaves,
            keys@ == Seq::new(i as nat, |k: int| leaf_key(base_key, k)),
        decreases num_leaves - i,
    {
        let wide: u128 = base_key as u128 + i as u128 + 1;
        keys.push((wide % 0x1_0000_0000_0000_0000) as u64);
        i = i + 1;
        proof {
            assert(keys@ =~= Seq::new(i as nat, |k: int| leaf_key(base_key, k)));
        }
    }
    keys
}

/// The keys of different leaves differ, and none is the base key.
pub proof fn leaf_keys_are_distinct(base_key: u64, i: int, j: int)
    requires
        0 <= i < 0xffff_ffff_ffff_ffff,
        0 <= j < 0xffff_ffff_ffff_ffff,
        i != j,
    ensures
        leaf_key(base_key, i) != leaf_key(base_key, j),
        leaf_key(base_key, i) != base_key,
{
}

/// The size of an axis; one for an axis that the shape does not have.
pub open spec fn axis_size(shape: Seq<usize>, axis: usize) -> int {
    if axis < shape.len() {
        shape[axis as int] as int
    } else {
        1
    }
}

/// The number of keys of a parameter that is split over scan axes: the product of their sizes.
pub open spec fn split_count(shape: Seq<usize>, axes: Seq<usize>) -> int
    decreases axes.len(),
{
    if axes.len() == 0 {
        1
    } else {
        split_count(shape, axes.drop_last()) * axis_size(shape, axes.last())
    }
}

/// The number of keys of a parameter that is split over scan axes: the product of their sizes,
/// one without axes.
pub fn recursive_scan_split_count(shape: &[usize], scan_axes: &[usize]) -> (count: usize)
    requires
        forall|k: int|
            0 <= k <= scan_axes@.len() ==> #[trigger] split_count(shape@, scan_axes@.take(k))
                <= usize::MAX,
    ensures
        count == split_count(shape@, scan_axes@),
{
    let mut count: usize = 1;
    let mut i: usize = 0;
    while i < scan_axes.len()
        invariant
            i <= scan_axes@.len(),
            count == split_count(shape@, scan_axes@.take(i as int)),
            forall|k: int|
                0 <= k <= scan_axes@.len() ==> #[trigger] split_count(shape@, scan_axes@.take(k))
                    <= usize::MAX,
        decreases scan_axes@.len() - i,
    {
        let axis: usize = scan_axes[i];
        let size: usize = if axis < shape.len() {
            shape[axis]
        } else {
            1
        };
        proof {
            assert(scan_axes@.take(i + 1).drop_last() =~= scan_axes@.take(i as int));
            assert(scan_axes@.take(i + 1).last() == axis);
            assert(split_count(shape@, scan_axes@.take(i + 1)) == count * size);
            assert(0 <= count * size) by (nonlinear_arith)
                requires
                    0 <= count,
                    0 <= size,
            ;
        }
        count = count * size;
        i = i + 1;
    }
    proof {
        assert(scan_axes@.take(i as int) =~= scan_axes@);
    }
    count
}

} // verus!
