use hyperscalees::common::{
    select_rows, Activation, ActivationOps, Embedding, EsClass, Linear, Mlp, Mm, Parameter,
    EMB_PARAM, MM_PARAM, PARAM,
};
use hyperscalees::rl::{
    hidden_dims, ActorCriticMlp, ActorCriticOps, InputProcessor, Output, OutputProcessor, Space,
};

/// A matrix by rows; `cols` is kept for a matrix without rows.
#[derive(Clone, Debug, PartialEq)]
struct Mat {
    rows: usize,
    cols: usize,
    d: Vec<f32>,
}

type Layer = Linear<Mm<Mat>, Vec<f32>>;
type Input = InputProcessor<Embedding<Mat>, Mm<Mat>>;
type Head = OutputProcessor<Layer, Vec<f32>>;
type Net = ActorCriticMlp<Embedding<Mat>, Mm<Mat>, Layer, Vec<f32>>;

fn mat(rows: usize, cols: usize, d: &[f32]) -> Mat {
    assert_eq!(rows * cols, d.len());
    Mat { rows, cols, d: d.to_vec() }
}

/// A matrix of some numbers, as random initialisation would give them.
fn some(s: ([usize; 2], usize)) -> Mat {
    let n = s.0[0] * s.0[1];
    let d: Vec<f32> = (0..n).map(|i| (i as f32 * 0.7).sin() / (s.1 as f32).sqrt()).collect();
    mat(s.0[0], s.0[1], &d)
}

fn lookup(table: &Embedding<Mat>, x: &Mat) -> Mat {
    let indices: Vec<usize> = x.d.iter().map(|v| *v as usize).collect();
    let cols = table.table.cols;
    mat(indices.len(), cols, &select_rows(&table.table.d, cols, &indices))
}

fn product(mm: &Mm<Mat>, x: &Mat) -> Mat {
    let (w, mut out) = (&mm.weight, Vec::new());
    for i in 0..x.rows {
        for j in 0..w.rows {
            out.push((0..x.cols).map(|k| x.d[i * x.cols + k] * w.d[j * w.cols + k]).sum());
        }
    }
    mat(x.rows, w.rows, &out)
}

fn plus(x: &Mat, bias: &Vec<f32>) -> Mat {
    let d: Vec<f32> = x.d.iter().enumerate().map(|(i, v)| v + bias[i % x.cols]).collect();
    mat(x.rows, x.cols, &d)
}

fn relu(x: &Mat) -> Mat {
    let d: Vec<f32> = x.d.iter().map(|v| v.max(0.0)).collect();
    mat(x.rows, x.cols, &d)
}

fn layer(l: &Layer, x: &Mat) -> Mat {
    l.forward(&product, &plus, x)
}

fn copy(v: &Vec<f32>) -> Vec<f32> {
    v.clone()
}

fn zeros(n: usize) -> Vec<f32> {
    vec![0.0; n]
}

fn embedding(d: (usize, usize)) -> Embedding<Mat> {
    Embedding::new(d.0, d.1, &some)
}

fn projection(d: (usize, usize)) -> Mm<Mat> {
    Mm::new(d.0, d.1, &some)
}

fn linear(d: (usize, usize)) -> Layer {
    Linear::new(d.0, d.1, false, &projection, &zeros)
}

fn plain(weight: Mat) -> Layer {
    Linear { weight: Mm { weight }, bias: None }
}

fn input(space: &Space, n_embd: usize) -> Input {
    InputProcessor::new(space, n_embd, &embedding, &projection)
}

fn head(space: &Space, n_embd: usize) -> Head {
    OutputProcessor::new(space, n_embd, &linear, &zeros)
}

fn logits(out: Output<Mat, Vec<f32>>) -> Mat {
    match out {
        Output::Discrete { logits } => logits,
        other => panic!("expected discrete output, got {other:?}"),
    }
}

fn mean_and_log_std(out: Output<Mat, Vec<f32>>) -> (Mat, Vec<f32>) {
    match out {
        Output::Continuous { mean, log_std } => (mean, log_std),
        other => panic!("expected continuous output, got {other:?}"),
    }
}

fn run(net: &Net, x: &Mat) -> (Output<Mat, Vec<f32>>, Option<Mat>) {
    let acts = ActivationOps { relu, silu: relu, pqn: relu };
    let ops = ActorCriticOps { lookup, product, layer, copy };
    net.forward(&acts, &ops, x)
}

#[test]
fn input_processor_discrete_embeds_and_selects_rows() {
    let table = mat(3, 3, &[1.0, 2.0, 3.0, 4.0, 5.0, 6.0, 7.0, 8.0, 9.0]);
    let ip: Input = InputProcessor::Embed(Embedding { table });
    let out = ip.forward(&lookup, &product, &mat(2, 1, &[2.0, 0.0]));
    assert_eq!(out.d, vec![7.0, 8.0, 9.0, 1.0, 2.0, 3.0]);
    assert_eq!(ip.es_class(), EsClass::EmbParam);
}

#[test]
fn input_processor_discrete_new_builds_embedding() {
    let ip = input(&Space::Discrete { n: 5 }, 4);
    let out = ip.forward(&lookup, &product, &mat(2, 1, &[1.0, 3.0]));
    assert_eq!([out.rows, out.cols], [2, 4]);
    assert_eq!(ip.es_class(), EsClass::EmbParam);
}

#[test]
fn input_processor_continuous_projects() {
    let ip: Input = InputProcessor::Project(Mm { weight: mat(2, 2, &[1.0, 0.0, 0.0, 1.0]) });
    let out = ip.forward(&lookup, &product, &mat(2, 2, &[1.0, 2.0, 3.0, 4.0]));
    assert_eq!(out.d, vec![1.0, 2.0, 3.0, 4.0]);
    assert_eq!(ip.es_class(), EsClass::MmParam);
}

#[test]
fn input_processor_continuous_new_builds_mm() {
    let ip = input(&Space::Continuous { size: 3 }, 2);
    let out = ip.forward(&lookup, &product, &mat(2, 3, &[1.0, 2.0, 3.0, 4.0, 5.0, 6.0]));
    assert_eq!([out.rows, out.cols], [2, 2]);
    assert_eq!(ip.es_class(), EsClass::MmParam);
}

#[test]
fn output_processor_discrete_logits() {
    let op: Head = OutputProcessor::Discrete(plain(mat(2, 2, &[1.0, 0.0, 0.0, 1.0])));
    let out = op.forward(&layer, &copy, &mat(2, 2, &[1.0, 2.0, 3.0, 4.0]));
    assert_eq!(logits(out).d, vec![1.0, 2.0, 3.0, 4.0]);
    assert!(op.is_discrete());
}

#[test]
fn output_processor_discrete_new_builds_linear() {
    let op = head(&Space::Discrete { n: 3 }, 4);
    assert!(op.is_discrete());
    let out = logits(op.forward(&layer, &copy, &mat(2, 4, &[0.0; 8])));
    assert_eq!([out.rows, out.cols], [2, 3]);
}

#[test]
fn output_processor_continuous_mean_logstd() {
    let linear = plain(mat(2, 2, &[1.0, 0.0, 0.0, 1.0]));
    let op: Head = OutputProcessor::Continuous(linear, vec![0.0, 2.0]);
    let out = op.forward(&layer, &copy, &mat(2, 2, &[1.0, 2.0, 3.0, 4.0]));
    let (mean, ls) = mean_and_log_std(out);
    assert_eq!(mean.d, vec![1.0, 2.0, 3.0, 4.0]);
    assert_eq!(ls, vec![0.0, 2.0]);
    let s: Vec<f32> = ls.iter().map(|v| v.exp()).collect();
    assert!((s[0] - 1.0).abs() <= 1e-4);
    assert!((s[1] - 2.0_f32.exp()).abs() <= 1e-4);
    assert!(!op.is_discrete());
}

#[test]
fn output_processor_continuous_new_builds_linear_and_logstd() {
    let op = head(&Space::Continuous { size: 3 }, 4);
    assert!(!op.is_discrete());
    let (mean, log_std) = mean_and_log_std(op.forward(&layer, &copy, &mat(2, 4, &[0.0; 8])));
    assert_eq!([mean.rows, mean.cols], [2, 3]);
    assert_eq!(log_std.len(), 3);
    assert!(log_std.iter().all(|v| v.abs() <= 1e-4));
}

fn net(obs: Space, act: Space, critic: bool) -> Net {
    ActorCriticMlp::new(
        4, &obs, &act, 1, Activation::Relu, critic, &embedding, &projection, &linear, &zeros,
    )
}

#[test]
fn actor_critic_no_critic() {
    let mlp = net(Space::Discrete { n: 3 }, Space::Discrete { n: 2 }, false);
    let (pi, critic) = run(&mlp, &mat(2, 1, &[0.0, 1.0]));
    assert!(critic.is_none());
    let out = logits(pi);
    assert_eq!([out.rows, out.cols], [2, 2]);
}

#[test]
fn actor_critic_with_critic() {
    let mlp = net(Space::Continuous { size: 2 }, Space::Continuous { size: 2 }, true);
    let (pi, critic) = run(&mlp, &mat(2, 2, &[1.0, 2.0, 3.0, 4.0]));
    let crit = critic.expect("critic present");
    assert_eq!([crit.rows, crit.cols], [2, 1]);
    let (mean, log_std) = mean_and_log_std(pi);
    assert_eq!([mean.rows, mean.cols], [2, 2]);
    assert_eq!(log_std.len(), 2);
}

#[test]
fn actor_critic_relu_hand_computed() {
    let net: Net = ActorCriticMlp {
        obs_embed: InputProcessor::Embed(Embedding { table: mat(2, 1, &[1.0, 2.0]) }),
        act_head: OutputProcessor::Discrete(plain(mat(1, 1, &[1.0]))),
        mlp: Mlp { layers: vec![plain(mat(1, 1, &[1.0]))], activation: Activation::Relu },
        critic_head: None,
        activation: Activation::Relu,
    };
    let (pi, _critic) = run(&net, &mat(2, 1, &[0.0, 1.0]));
    assert_eq!(logits(pi).d, vec![1.0, 2.0]);
}

#[test]
fn hidden_layers_are_square() {
    assert_eq!(hidden_dims(4, 3), vec![4, 4]);
    assert!(hidden_dims(4, 1).is_empty());
    assert!(hidden_dims(4, 0).is_empty());
    let shapes = ActorCriticMlp::new(
        4,
        &Space::Continuous { size: 2 },
        &Space::Discrete { n: 7 },
        3,
        Activation::Silu,
        true,
        &|d: (usize, usize)| d,
        &|d: (usize, usize)| d,
        &|d: (usize, usize)| d,
        &|n: usize| n,
    );
    assert_eq!(shapes.mlp.layers, vec![(4, 4); 3]);
    assert!(matches!(shapes.obs_embed, InputProcessor::Project((2, 4))));
    assert!(matches!(shapes.act_head, OutputProcessor::Discrete((4, 7))));
    assert_eq!(shapes.critic_head, Some((4, 1)));
    assert_eq!(shapes.activation, Activation::Silu);
}

#[test]
fn es_class_structure() {
    assert_eq!(EsClass::EmbParam.to_i32(), EMB_PARAM);
    assert_eq!(EsClass::MmParam.to_i32(), MM_PARAM);
    assert_eq!(EsClass::Param.to_i32(), PARAM);
    let ip_d: Input = InputProcessor::Embed(Embedding { table: mat(1, 1, &[1.0]) });
    assert_eq!(ip_d.es_class(), EsClass::EmbParam);
    let ip_c: Input = InputProcessor::Project(Mm { weight: mat(1, 1, &[1.0]) });
    assert_eq!(ip_c.es_class(), EsClass::MmParam);
    assert_eq!(Mm::<Mat>::es_class(), EsClass::MmParam);
    assert_eq!(Parameter::<Mat>::es_class(), EsClass::Param);
    assert!(head(&Space::Discrete { n: 2 }, 4).is_discrete());
    assert!(head(&Space::Discrete { n: 3 }, 4).is_discrete());
    assert!(!head(&Space::Continuous { size: 3 }, 4).is_discrete());
}
