use hyperscalees::common::{
    recursive_scan_split_count, select_rows, simple_es_tree_key, Activation, ActivationOps,
    Embedding, EsClass, Linear, Mlp, Mm, Parameter, Tmm, EMB_PARAM, EXCLUDED, MM_PARAM, PARAM,
};

/// A batch of rows, or a weight.
type Rows = Vec<Vec<f32>>;

type Layer = Linear<Mm<Rows>, Vec<f32>>;

/// `x` times the transposed weight.
fn product(mm: &Mm<Rows>, x: &Rows) -> Rows {
    let dot = |r: &Vec<f32>, v: &Vec<f32>| r.iter().zip(v).map(|(a, b)| a * b).sum();
    x.iter().map(|v| mm.weight.iter().map(|r| dot(r, v)).collect()).collect()
}

fn plus(x: &Rows, bias: &Vec<f32>) -> Rows {
    x.iter().map(|v| v.iter().zip(bias).map(|(a, b)| a + b).collect()).collect()
}

fn each(x: &Rows, f: impl Fn(f32) -> f32) -> Rows {
    x.iter().map(|r| r.iter().map(|v| f(*v)).collect()).collect()
}

fn relu(x: &Rows) -> Rows {
    each(x, |v| v.max(0.0))
}

fn negated(x: &Rows) -> Rows {
    each(x, |v| -v)
}

fn doubled(x: &Rows) -> Rows {
    each(x, |v| v * 2.0)
}

fn layer(l: &Layer, x: &Rows) -> Rows {
    l.forward(&product, &plus, x)
}

fn plain(weight: Rows) -> Layer {
    Linear { weight: Mm { weight }, bias: None }
}

fn identity(n: usize) -> Rows {
    (0..n).map(|i| (0..n).map(|j| if i == j { 1.0 } else { 0.0 }).collect()).collect()
}

#[test]
fn es_classes_map_to_constants() {
    assert_eq!(Mm::<f32>::es_class().to_i32(), MM_PARAM);
    assert_eq!(Tmm::<f32>::es_class().to_i32(), MM_PARAM);
    assert_eq!(Embedding::<f32>::es_class().to_i32(), EMB_PARAM);
    assert_eq!(Parameter::<f32>::es_class().to_i32(), PARAM);
    assert_eq!(EsClass::Excluded.to_i32(), EXCLUDED);
    assert_eq!((PARAM, MM_PARAM, EMB_PARAM, EXCLUDED), (0, 1, 2, 3));
}

#[test]
fn weights_are_made_of_their_shapes() {
    let shape = |s: ([usize; 2], usize)| s;
    assert_eq!(Mm::new(3, 5, &shape).weight, ([5, 3], 3));
    assert_eq!(Tmm::new(3, 5, &shape).weight, ([3, 5], 3));
    assert_eq!(Embedding::new(3, 5, &shape).table, ([3, 5], 3));
    assert_eq!(Parameter::new(7).value, 7);
}

#[test]
fn activations_are_told_apart() {
    let ops = ActivationOps { relu, silu: negated, pqn: doubled };
    let x = vec![vec![-1.0, 2.0]];
    assert_eq!(ops.apply(Activation::Relu, x.clone()), vec![vec![0.0, 2.0]]);
    assert_eq!(ops.apply(Activation::Silu, x.clone()), vec![vec![1.0, -2.0]]);
    assert_eq!(ops.apply(Activation::Pqn, x.clone()), vec![vec![-2.0, 4.0]]);
    assert_eq!(ops.apply(Activation::Identity, x.clone()), x);
}

#[test]
fn mm_forward_matches_expected() {
    let mm = Mm { weight: identity(2) };
    let x = vec![vec![1.0, 2.0], vec![3.0, 4.0]];
    assert_eq!(layer(&Linear { weight: mm, bias: None }, &x), x);
    let mm = Mm { weight: vec![vec![1.0, 2.0, 3.0], vec![4.0, 5.0, 6.0]] };
    let x = vec![vec![1.0, 1.0, 1.0], vec![2.0, 2.0, 2.0]];
    let out = layer(&Linear { weight: mm, bias: None }, &x);
    assert_eq!(out, vec![vec![6.0, 15.0], vec![12.0, 30.0]]);
}

#[test]
fn linear_without_bias() {
    let l = plain(identity(2));
    let x = vec![vec![1.0_f32, 2.0], vec![3.0, 4.0]];
    assert_eq!(layer(&l, &x).concat(), vec![1.0, 2.0, 3.0, 4.0]);
}

#[test]
fn linear_with_bias() {
    let l = Linear { weight: Mm { weight: identity(2) }, bias: Some(vec![10.0_f32, 20.0]) };
    let x = vec![vec![1.0_f32, 2.0], vec![3.0, 4.0]];
    assert_eq!(layer(&l, &x).concat(), vec![11.0, 22.0, 13.0, 24.0]);
}

#[test]
fn linear_layers_start_without_an_offset() {
    let weight = |d: (usize, usize)| d;
    let zeros = |n: usize| vec![0.0_f32; n];
    let with = Linear::new(2, 3, true, &weight, &zeros);
    assert_eq!((with.weight, with.bias), ((2, 3), Some(vec![0.0, 0.0, 0.0])));
    let without = Linear::new(2, 3, false, &weight, &zeros);
    assert_eq!((without.weight, without.bias), ((2, 3), None));
}

#[test]
fn mlp_layers_fit_each_other() {
    let mlp = Mlp::new(3, 1, &[5, 4], Activation::Relu, &|d: (usize, usize)| d);
    assert_eq!(mlp.layers, vec![(3, 5), (5, 4), (4, 1)]);
    let flat = Mlp::new(3, 1, &[], Activation::Relu, &|d: (usize, usize)| d);
    assert_eq!(flat.layers, vec![(3, 1)]);
}

#[test]
fn mlp_relu_applies_only_between_layers() {
    let ops = ActivationOps { relu, silu: negated, pqn: doubled };
    let mlp = Mlp { layers: vec![plain(identity(1)), plain(identity(1))], activation: Activation::Relu };
    assert_eq!(mlp.forward(&ops, &layer, vec![vec![-3.0]]), vec![vec![0.0]]);
    assert_eq!(mlp.forward(&ops, &layer, vec![vec![5.0]]), vec![vec![5.0]]);
}

#[test]
fn mlp_last_layer_not_activated() {
    let ops = ActivationOps { relu, silu: negated, pqn: doubled };
    let mlp = Mlp { layers: vec![plain(identity(1)), plain(identity(1))], activation: Activation::Relu };
    assert_eq!(mlp.forward(&ops, &layer, vec![vec![5.0]]), vec![vec![5.0]]);
    assert_eq!(mlp.forward(&ops, &layer, vec![vec![-5.0]]), vec![vec![0.0]]);
    // A negative last layer shows that nothing follows it.
    let mlp = Mlp {
        layers: vec![plain(identity(1)), plain(vec![vec![-1.0]])],
        activation: Activation::Relu,
    };
    assert_eq!(mlp.forward(&ops, &layer, vec![vec![5.0]]), vec![vec![-5.0]]);
}

#[test]
fn mlp_multi_dim_hand_computed() {
    let ops = ActivationOps { relu, silu: negated, pqn: doubled };
    let mlp = Mlp {
        layers: vec![plain(identity(3)), plain(vec![vec![1.0, 0.0, 0.0]])],
        activation: Activation::Relu,
    };
    assert_eq!(mlp.forward(&ops, &layer, vec![vec![2.0, -3.0, 4.0]]), vec![vec![2.0]]);
}

#[test]
fn embedding_selects_rows() {
    let table = [1.0_f32, 2.0, 3.0, 4.0, 5.0, 6.0, 7.0, 8.0, 9.0];
    let emb = Embedding { table: table.to_vec() };
    assert_eq!(select_rows(&emb.table, 3, &[2, 0]), vec![7.0, 8.0, 9.0, 1.0, 2.0, 3.0]);
    assert!(select_rows(&emb.table, 3, &[]).is_empty());
}

#[test]
fn simple_es_tree_key_count_matches_leaves() {
    let keys = simple_es_tree_key(5, 42);
    assert_eq!(keys.len(), 5);
    let mut sorted = keys.clone();
    sorted.sort();
    sorted.dedup();
    assert_eq!(sorted.len(), 5);
}

#[test]
fn tree_keys_wrap_around() {
    assert_eq!(simple_es_tree_key(3, u64::MAX - 1), vec![u64::MAX, 0, 1]);
    assert_eq!(simple_es_tree_key(0, 9), Vec::<u64>::new());
}

#[test]
fn recursive_scan_split_count_shape_parity() {
    assert_eq!(recursive_scan_split_count(&[4, 16], &[]), 1);
    assert_eq!(recursive_scan_split_count(&[4, 16], &[0]), 4);
    assert_eq!(recursive_scan_split_count(&[4, 16], &[0, 1]), 64);
}

#[test]
fn missing_axes_count_once() {
    assert_eq!(recursive_scan_split_count(&[4, 5], &[7, 1]), 5);
}
