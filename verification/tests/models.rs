use hyperscalees::common::{EMB_PARAM, MM_PARAM, PARAM};
use hyperscalees::noise::DeterministicNoise;
use hyperscalees::recurrent::{matmul_3d, relax, run_lif};
use hyperscalees::snn::{SnnModel, SpikingOps, TrainableVthSnn};
use hyperscalees::snn_attention::{AttentionOps, Route, SnnAttentionModel};
use hyperscalees::snn_transformer::{
    noise_slot, split_indices, SnnTransformer, TransformerDims,
};
use hyperscalees::transformer_forward::{ForwardPass, TrainNoise};
use std::cell::Cell;

#[derive(Clone, Debug, PartialEq)]
struct Mat {
    rows: usize,
    cols: usize,
    d: Vec<f32>,
}

impl Mat {
    fn new(rows: usize, cols: usize, d: &[f32]) -> Mat {
        assert_eq!(d.len(), rows * cols);
        Mat { rows, cols, d: d.to_vec() }
    }

    fn full(rows: usize, cols: usize, v: f32) -> Mat {
        Mat { rows, cols, d: vec![v; rows * cols] }
    }

    fn shape(&self) -> [usize; 2] {
        [self.rows, self.cols]
    }

    fn map(&self, f: impl Fn(f32) -> f32) -> Mat {
        Mat { rows: self.rows, cols: self.cols, d: self.d.iter().map(|&v| f(v)).collect() }
    }

    /// Element by element; a single row or element is used for all.
    fn zip(&self, other: &Mat, f: impl Fn(f32, f32) -> f32) -> Mat {
        let mut out = self.clone();
        for (i, v) in out.d.iter_mut().enumerate() {
            let (r, c) = (i / self.cols % other.rows, i % self.cols % other.cols);
            *v = f(*v, other.d[r * other.cols + c]);
        }
        out
    }

    fn add(&self, other: &Mat) -> Mat {
        self.zip(other, |a, b| a + b)
    }

    fn t(&self) -> Mat {
        let mut out = Mat::full(self.cols, self.rows, 0.0);
        for i in 0..self.rows {
            for j in 0..self.cols {
                out.d[j * self.rows + i] = self.d[i * self.cols + j];
            }
        }
        out
    }

    fn matmul(&self, other: &Mat) -> Mat {
        assert_eq!(self.cols, other.rows);
        let mut out = Mat::full(self.rows, other.cols, 0.0);
        for i in 0..self.rows {
            for j in 0..other.cols {
                for k in 0..self.cols {
                    out.d[i * other.cols + j] +=
                        self.d[i * self.cols + k] * other.d[k * other.cols + j];
                }
            }
        }
        out
    }

    /// The mean of all rows.
    fn mean(&self) -> Mat {
        let mut out = Mat::full(1, self.cols, 0.0);
        for (i, v) in self.d.iter().enumerate() {
            out.d[i % self.cols] += v / self.rows as f32;
        }
        out
    }
}

fn near(a: f32, b: f32, tol: f32) -> bool {
    (a - b).abs() <= tol
}

fn sigmoid(x: f32) -> f32 {
    1.0 / (1.0 + (-x).exp())
}

fn normal(u: (u32, u32)) -> f32 {
    let unit = |n: u32| n as f32 / (1u64 << 24) as f32;
    (-2.0 * unit(u.0).max(1e-9).ln()).sqrt() * (std::f32::consts::TAU * unit(u.1)).cos()
}

/// A source of random weights: another one for each call.
fn random_weights() -> impl Fn(([usize; 2], usize)) -> Mat {
    let calls = Cell::new(1_u64);
    move |s: ([usize; 2], usize)| {
        calls.set(calls.get() + 1);
        let n = s.0[0] * s.0[1];
        let draws = DeterministicNoise::new(calls.get()).normal_values(n, &normal);
        Mat::new(s.0[0], s.0[1], &draws).map(|v| v / (s.1 as f32).sqrt())
    }
}

fn copy(p: &Mat) -> Mat {
    p.clone()
}

fn product(x: &Mat, w: &Mat) -> Mat {
    x.matmul(&w.t())
}

/// A product with a fixed perturbation.
fn noised_product(x: &Mat, w: &Mat) -> Mat {
    x.matmul(&w.t()).map(|v| v + 1.0)
}

#[derive(Clone, Copy)]
struct LifParams {
    tau_m: f32,
    v_th: f32,
}

fn lif_step(v: &Mat, current: &Mat, p: &LifParams) -> (Mat, Mat) {
    let charged = v.zip(current, |v, c| v + (c - v) * (1.0 / p.tau_m));
    let spike = charged.map(|v| if v >= p.v_th { 1.0 } else { 0.0 });
    (charged.zip(&spike, |v, s| v * (1.0 - s)), spike)
}

const LIF: LifParams = LifParams { tau_m: 20.0, v_th: 0.3 };

fn mean_rate(spikes: &Vec<Mat>) -> Mat {
    let mut sum = Mat::full(spikes[0].rows, spikes[0].cols, 0.0);
    for s in spikes {
        sum = sum.add(s);
    }
    sum.map(|v| v / spikes.len() as f32)
}

fn scale(x: &Mat, gain: &Mat) -> Mat {
    x.map(|v| v * gain.d[0])
}

type Product = fn(&Mat, &Mat) -> Mat;
type Step = fn(&Mat, &Mat, &LifParams) -> (Mat, Mat);

fn spiking_ops(
    batch: usize,
    product: Product,
) -> SpikingOps<Product, impl Fn(&Mat) -> Mat, Step, fn(&Vec<Mat>) -> Mat, Product> {
    SpikingOps {
        product,
        rest: move |w: &Mat| Mat::full(batch, w.rows, 0.0),
        lif_step: lif_step as Step,
        rate: mean_rate as fn(&Vec<Mat>) -> Mat,
        scale: scale as Product,
    }
}

fn softplus(raw: &Mat) -> LifParams {
    LifParams { tau_m: 20.0, v_th: raw.d[0].exp().ln_1p() }
}

fn snn(dims: [usize; 4]) -> SnnModel<Mat> {
    let one = Mat::full(1, 1, 1.0);
    SnnModel::new(dims[0], dims[1], dims[2], dims[3], &random_weights(), one)
}

fn trainable(dims: [usize; 4]) -> TrainableVthSnn<Mat> {
    let raw = Mat::full(1, 1, (0.3_f32.exp() - 1.0).ln());
    let one = Mat::full(1, 1, 1.0);
    TrainableVthSnn::new(
        dims[0], dims[1], dims[2], dims[3], &random_weights(), one, (raw.clone(), raw),
    )
}

/// Three time steps of two samples.
fn three_steps() -> Vec<Mat> {
    let (a, b) = ([1.0, 0.0, 1.0, 0.0], [0.0, 1.0, 0.0, 1.0]);
    let ab: Vec<f32> = [a, b].concat();
    let ba: Vec<f32> = [b, a].concat();
    vec![Mat::new(2, 4, &ab), Mat::new(2, 4, &ba), Mat::new(2, 4, &ab)]
}

/// Spikes of a fair coin.
fn coin_steps(t: usize, n: usize, dim: usize) -> Vec<Mat> {
    let mut coin = DeterministicNoise::new(99);
    let mut step = || {
        let d: Vec<f32> = (0..n * dim).map(|_| (coin.next_unit() & 1) as f32).collect();
        Mat::new(n, dim, &d)
    };
    (0..t).map(|_| step()).collect()
}

#[test]
fn lif_step_suprathreshold_current_fires() {
    let current = [Mat::full(1, 1, 10.0)];
    let spikes = run_lif(&(lif_step as Step), &LIF, Mat::full(1, 1, 0.0), &current);
    assert_eq!(spikes[0].d, vec![1.0]);
}

#[test]
fn lif_step_subthreshold_current_never_fires() {
    let current = [Mat::full(1, 1, 0.1)];
    let spikes = run_lif(&(lif_step as Step), &LIF, Mat::full(1, 1, 0.0), &current);
    assert_eq!(spikes[0].d, vec![0.0]);
}

#[test]
fn lif_step_accumulates_then_fires() {
    let currents = vec![Mat::full(1, 1, 6.0); 10];
    let spikes = run_lif(&(lif_step as Step), &LIF, Mat::full(1, 1, 0.0), &currents);
    assert!(spikes.iter().any(|s| s.d[0] == 1.0));
    // The membrane starts over behind a spike.
    let fired: Vec<f32> = spikes.iter().map(|s| s.d[0]).collect();
    assert_eq!(fired[..2], [1.0, 1.0]);
}

#[test]
fn run_lif_shape_and_firing() {
    let current = vec![Mat::full(2, 3, 5.0); 5];
    let spikes = run_lif(&(lif_step as Step), &LIF, Mat::full(2, 3, 0.0), &current);
    assert_eq!(spikes.len(), 5);
    assert!(spikes.iter().all(|s| s.shape() == [2, 3]));
    assert!(spikes.iter().any(|s| s.d.iter().any(|&v| v == 1.0)));
    // 0.25, then 0.4875 fires, and so on.
    let fired: Vec<f32> = spikes.iter().map(|s| s.d[0]).collect();
    assert_eq!(fired, vec![0.0, 1.0, 0.0, 1.0, 0.0]);
}

#[test]
fn run_lif_silent_with_negative_current() {
    let current = vec![Mat::full(1, 2, -10.0); 4];
    let spikes = run_lif(&(lif_step as Step), &LIF, Mat::full(1, 2, 0.0), &current);
    assert!(spikes.iter().all(|s| s.d.iter().all(|&v| v == 0.0)));
}

#[test]
fn each_time_step_is_multiplied() {
    let w = Mat::new(1, 4, &[1.0, 2.0, 3.0, 4.0]);
    let out = matmul_3d(&(product as Product), &three_steps(), &w);
    let rows: Vec<Vec<f32>> = out.into_iter().map(|m| m.d).collect();
    assert_eq!(rows, vec![vec![4.0, 6.0], vec![6.0, 4.0], vec![4.0, 6.0]]);
}

#[test]
fn snn_forward_clean_deterministic_and_shaped() {
    let model = snn([4, 8, 16, 3]);
    let ops = spiking_ops(2, product);
    let out1 = model.forward(&ops, &three_steps(), &LIF);
    let out2 = model.forward(&ops, &three_steps(), &LIF);
    assert_eq!(out1.shape(), [2, 3]);
    assert_eq!(out1, out2);
    assert!(out1.d.iter().all(|v| v.is_finite()));
}

#[test]
fn snn_forward_noised_differs_from_clean() {
    // A fast membrane, so that the hidden neurons fire.
    let fast = LifParams { tau_m: 1.0, v_th: 0.3 };
    let model = snn([4, 8, 16, 3]);
    let clean = model.forward(&spiking_ops(2, product), &three_steps(), &fast);
    let noised = model.forward(&spiking_ops(2, noised_product), &three_steps(), &fast);
    assert_eq!(noised.shape(), [2, 3]);
    assert_ne!(clean, noised);
    let slow = model.forward(&spiking_ops(2, product), &three_steps(), &LIF);
    let slow_noised = model.forward(&spiking_ops(2, noised_product), &three_steps(), &LIF);
    assert_ne!(slow, slow_noised);
}

#[test]
fn snn_rand_init_struct_and_es_map() {
    let model = snn([8, 16, 32, 4]);
    assert_eq!(model.fc1.shape(), [16, 8]);
    assert_eq!(model.fc2.shape(), [32, 16]);
    assert_eq!(model.fc3.shape(), [4, 32]);
    assert_eq!(model.out_gain.d, vec![1.0]);
    assert_eq!(model.es_map(), vec![MM_PARAM, MM_PARAM, MM_PARAM, PARAM]);
}

#[test]
fn snn_forward_reproducible_across_calls() {
    let model = snn([5, 10, 20, 4]);
    let x = vec![Mat::new(2, 5, &[1.0, 0.0, 1.0, 0.0, 1.0, 0.0, 1.0, 0.0, 1.0, 0.0])];
    let ops = spiking_ops(2, product);
    assert_eq!(model.forward(&ops, &x, &LIF), model.forward(&ops, &x, &LIF));
}

#[test]
fn snn_forward_by_hand() {
    // One neuron per layer, no leak: every current above the threshold fires.
    let one = Mat::full(1, 1, 1.0);
    let model =
        SnnModel { fc1: one.clone(), fc2: one.clone(), fc3: one.clone(), out_gain: Mat::full(1, 1, 3.0) };
    let x: Vec<Mat> = [1.0, 0.0, 1.0, 1.0].iter().map(|v| Mat::full(1, 1, *v)).collect();
    let fast = LifParams { tau_m: 1.0, v_th: 0.5 };
    let out = model.forward(&spiking_ops(1, product), &x, &fast);
    assert_eq!(out.d, vec![0.75 * 3.0]);
}

#[test]
fn parameters_go_out_and_come_back() {
    let m = |v: f32| Mat::full(1, 1, v);
    let model = SnnModel { fc1: m(1.0), fc2: m(2.0), fc3: m(3.0), out_gain: m(4.0) };
    let mut params = model.params(&copy);
    assert_eq!(params, vec![m(1.0), m(2.0), m(3.0), m(4.0)]);
    params.push(m(9.0));
    let back = SnnModel::write_params(params);
    assert_eq!(back.params(&copy), model.params(&copy));
    let list: Vec<Mat> = (0..6).map(|i| m(i as f32)).collect();
    let vth = TrainableVthSnn::write_params(list.clone());
    assert_eq!((vth.fc2.clone(), vth.v_th2.clone()), (m(1.0), m(5.0)));
    assert_eq!(vth.params(&copy), list);
}

#[test]
fn trainable_vth_struct_and_es_map() {
    let model = trainable([8, 16, 32, 4]);
    assert_eq!(model.out_gain.d, vec![1.0]);
    let params = model.params(&copy);
    let shapes: Vec<[usize; 2]> = params.iter().map(|p| p.shape()).collect();
    assert_eq!(shapes, vec![[16, 8], [32, 16], [4, 32], [1, 1], [1, 1], [1, 1]]);
    assert_eq!(model.es_map(), vec![MM_PARAM, MM_PARAM, MM_PARAM, PARAM, PARAM, PARAM]);
}

#[test]
fn trainable_vth_softplus_positive_and_near_target() {
    let params = trainable([8, 16, 32, 4]).params(&copy);
    for p in &params[4..6] {
        let s = softplus(p).v_th;
        assert!(s > 0.0);
        assert!((s - 0.3).abs() < 1e-4);
    }
}

#[test]
fn trainable_vth_forward_clean_deterministic_and_shaped() {
    let model = trainable([4, 8, 16, 10]);
    let ops = spiking_ops(2, product);
    let out1 = model.forward(&ops, &three_steps(), &softplus);
    let out2 = model.forward(&ops, &three_steps(), &softplus);
    assert_eq!(out1.shape(), [2, 10]);
    assert_eq!(out1, out2);
    assert!(out1.d.iter().all(|v| v.is_finite()));
}

#[test]
fn trainable_vth_forward_noised_differs_from_clean() {
    let model = trainable([4, 8, 16, 10]);
    let clean = model.forward(&spiking_ops(2, product), &three_steps(), &softplus);
    let noised = model.forward(&spiking_ops(2, noised_product), &three_steps(), &softplus);
    assert_eq!(noised.shape(), [2, 10]);
    assert_ne!(clean, noised);
}

type BatchedNoise = fn(&Mat, &Mat, &Vec<i32>, &i32) -> Mat;

fn batched_noise(x: &Mat, w: &Mat, _tids: &Vec<i32>, _epoch: &i32) -> Mat {
    product(x, w).map(|v| v + 1.0)
}

#[test]
fn forward_batched_clean_matches_forward() {
    let model = trainable([784, 128, 128, 10]);
    let x = coin_steps(3, 5, 784);
    let tids: Vec<i32> = (0..5).collect();
    let ops = spiking_ops(5, product);
    let batched = model.forward_batched(&ops, &x, &tids, 7, None::<&BatchedNoise>, &softplus);
    let plain = model.forward(&ops, &x, &softplus);
    assert_eq!(batched.shape(), [5, 10]);
    assert_eq!(plain.shape(), [5, 10]);
    assert_eq!(batched, plain);
    let other = model.forward_batched(&ops, &x, &vec![0; 5], -1, None::<&BatchedNoise>, &softplus);
    assert_eq!(other, plain);
    for i in 0..5 {
        let sample: Vec<Mat> =
            x.iter().map(|m| Mat::new(1, 784, &m.d[i * 784..(i + 1) * 784])).collect();
        let plain = model.forward(&spiking_ops(1, product), &sample, &softplus);
        for c in 0..10 {
            assert!(near(plain.d[c], batched.d[i * 10 + c], 1e-6));
        }
    }
}

#[test]
fn snn_forward_batched_noised_differs_from_clean() {
    let model = trainable([784, 128, 128, 10]);
    let x = coin_steps(3, 5, 784);
    let tids: Vec<i32> = (0..5).collect();
    let ops = spiking_ops(5, product);
    let clean = model.forward_batched(&ops, &x, &tids, 7, None::<&BatchedNoise>, &softplus);
    let noise = batched_noise as BatchedNoise;
    let noised = model.forward_batched(&ops, &x, &tids, 7, Some(&noise), &softplus);
    assert_eq!(noised.shape(), [5, 10]);
    assert_ne!(clean, noised);
}

#[test]
fn batched_noise_gets_threads_and_epoch() {
    let model = trainable([4, 8, 16, 10]);
    let ops = spiking_ops(2, product);
    let told = |x: &Mat, w: &Mat, tids: &Vec<i32>, epoch: &i32| {
        assert_eq!((tids.as_slice(), *epoch), ([3, 4].as_slice(), 7));
        product(x, w)
    };
    let out = model.forward_batched(&ops, &three_steps(), &vec![3, 4], 7, Some(&told), &softplus);
    assert_eq!(out, model.forward(&ops, &three_steps(), &softplus));
}

// ---------------------------------------------------------------------------
// Attention
// ---------------------------------------------------------------------------

fn scores_of(q: &Mat, k: &Mat, beta: f32) -> Mat {
    q.mean().matmul(&k.t()).map(|v| v * beta)
}

fn normalized(e: &Mat) -> Mat {
    let sum: f32 = e.d.iter().sum();
    e.map(|v| v / (sum + 1e-6))
}

fn weighted(p: &Mat, v: &Mat) -> Mat {
    let mut out = v.clone();
    for (i, o) in out.d.iter_mut().enumerate() {
        *o *= p.d[i / v.cols];
    }
    out
}

fn hopfield_attention(q: &Mat, k: &Mat, v: &Mat, g_inh: f32, tau: f32, beta: f32, n: usize) -> (Mat, Mat) {
    let h = scores_of(q, k, beta);
    let step = |u: &Mat, h: &Mat| {
        let c = u.d.iter().sum::<f32>() / u.cols as f32;
        u.zip(h, |u, h| u + (-u + h - g_inh * c) * (1.0 / tau))
    };
    let u = relax(&step, &h, h.clone(), n);
    let max = u.d.iter().cloned().fold(f32::NEG_INFINITY, f32::max);
    let p = normalized(&u.map(|v| (v - max).exp()));
    let o = weighted(&p, v);
    (p, o)
}

fn meanfield_attention(q: &Mat, k: &Mat, v: &Mat, gamma: f32, beta: f32, n: usize) -> (Mat, Mat) {
    let h = scores_of(q, k, beta);
    let step = |r: &Mat, h: &Mat| {
        let sum: f32 = r.d.iter().sum();
        let next = h.map(|h| (h - gamma * sum).max(0.0));
        let total = next.d.iter().sum::<f32>().max(1e-6);
        next.map(|v| v / total)
    };
    let r = normalized(&relax(&step, &h, h.map(|v| v.max(0.0)), n));
    let a = normalized(&h.map(f32::exp).zip(&r, |e, r| e * r));
    let o = weighted(&a, v);
    (a, o)
}

fn test_qkv() -> (Mat, Mat, Mat) {
    (
        Mat::new(3, 2, &[1.0, 2.0, 3.0, 4.0, 5.0, 6.0]),
        Mat::new(3, 2, &[1.0, 0.0, 0.0, 1.0, 1.0, 1.0]),
        Mat::new(3, 2, &[1.0, 10.0, 2.0, 20.0, 3.0, 30.0]),
    )
}

const EXP: [f32; 3] = [20.08553692_f32, 54.59815003, 1096.63315843];

fn assert_readout(p: &Mat, o: &Mat, expected: &[f32], tol: f32) {
    let sum = p.d.iter().sum::<f32>();
    assert!(sum > 0.999 && sum < 1.001);
    for (a, b) in p.d.iter().zip(expected) {
        assert!(near(*a, *b, tol), "expected {b}, got {a}");
    }
    for i in 0..3 {
        for j in 0..2 {
            let expected = p.d[i] * [1.0_f32, 10.0][j] * [1.0_f32, 2.0, 3.0][i];
            assert!(near(o.d[i * 2 + j], expected, 1e-4));
        }
    }
}

#[test]
fn hopfield_attention_matches_hand_computed() {
    let (q, k, v) = test_qkv();
    let (p, o) = hopfield_attention(&q, &k, &v, 0.5, 5.0, 1.0, 8);
    let sum = EXP.iter().sum::<f32>() + 1e-6;
    assert_readout(&p, &o, &EXP.map(|e| e / sum), 1e-3);
}

#[test]
fn hopfield_attention_concentrates_with_large_beta() {
    let (q, k, v) = test_qkv();
    let (p, _) = hopfield_attention(&q, &k, &v, 0.5, 5.0, 8.0, 8);
    assert!(p.d[2] > p.d[0] && p.d[2] > p.d[1]);
    assert!(p.d[2] > 0.99);
}

#[test]
fn meanfield_attention_matches_hand_computed() {
    let (q, k, v) = test_qkv();
    let (a, o) = meanfield_attention(&q, &k, &v, 0.1, 1.0, 8);
    let r = [2.9_f32 / 13.7, 3.9 / 13.7, 6.9 / 13.7];
    let numer: Vec<f32> = (0..3).map(|i| EXP[i] * r[i]).collect();
    let sum: f32 = numer.iter().sum();
    let expected: Vec<f32> = numer.iter().map(|n| n / sum).collect();
    assert_readout(&a, &o, &expected, 1e-3);
}

#[test]
fn relaxing_zero_times_changes_nothing() {
    let halve = |u: &f32, h: &f32| (u + h) / 2.0;
    assert_eq!(relax(&halve, &8.0, 0.0, 0), 0.0);
    assert_eq!(relax(&halve, &8.0, 0.0, 3), 7.0);
}

fn rate_encode(proj: &Vec<Mat>, gain: f32) -> Mat {
    mean_rate(proj).map(|m| sigmoid(gain * m / (1.0 + m.abs())))
}

fn attend(model: &SnnAttentionModel<Mat>, x: &[Mat], product: Product) -> Vec<f32> {
    let ops = AttentionOps {
        product,
        rate: |p: &Vec<Mat>| rate_encode(p, 2.0),
        softplus: |raw: &Mat| raw.d[0].exp().ln_1p(),
        fixed: |q: &Mat| 1.0 / (q.cols as f32).sqrt(),
        hopfield: |q: &Mat, k: &Mat, v: &Mat, b: &f32| hopfield_attention(q, k, v, 0.5, 5.0, *b, 8).1,
        mean_field: |q: &Mat, k: &Mat, v: &Mat, b: &f32| meanfield_attention(q, k, v, 0.5, *b, 8).1,
        pool: |o: &Mat| o.mean(),
        scale,
    };
    model.forward(&ops, x).d
}

fn attention_model(route: Route) -> SnnAttentionModel<Mat> {
    let raw = ((1.0 / 5.0_f32.sqrt()).exp() - 1.0).ln();
    SnnAttentionModel::new(
        4, 3, 5, route, &random_weights(), Mat::full(1, 1, 1.0), Mat::full(1, 1, raw),
    )
}

fn token_steps() -> Vec<Mat> {
    vec![
        Mat::new(3, 4, &[1.0, 0.0, 1.0, 0.0, 0.0, 1.0, 0.0, 1.0, 1.0, 1.0, 0.0, 0.0]),
        Mat::new(3, 4, &[0.0, 1.0, 0.0, 1.0, 1.0, 0.0, 1.0, 0.0, 0.0, 0.0, 1.0, 1.0]),
    ]
}

#[test]
fn forward_clean_deterministic_and_shaped() {
    let model = attention_model(Route::Hopfield);
    let mut x = token_steps();
    x.push(Mat::new(3, 4, &[1.0, 0.0, 0.0, 1.0, 0.0, 1.0, 1.0, 0.0, 1.0, 0.0, 1.0, 0.0]));
    x.push(Mat::new(3, 4, &[0.0, 0.0, 1.0, 0.0, 1.0, 1.0, 0.0, 1.0, 0.0, 1.0, 0.0, 1.0]));
    let v1 = attend(&model, &x, product);
    let v2 = attend(&model, &x, product);
    assert_eq!(v1.len(), 3);
    assert_eq!(v1, v2);
    assert!(v1.iter().all(|v| v.is_finite()));
}

#[test]
fn forward_trainable_and_frozen_beta_both_work() {
    for route in [Route::Hopfield, Route::MeanField] {
        let mut model = attention_model(route);
        let trained = attend(&model, &token_steps(), product);
        assert_eq!(trained.len(), 3);
        model.trainable_beta = false;
        let frozen = attend(&model, &token_steps(), product);
        assert!(frozen.iter().all(|v| v.is_finite()));
        // The raw temperature starts at the fixed one.
        assert!(trained.iter().zip(&frozen).all(|(a, b)| near(*a, *b, 1e-4)));
    }
    let mut hot = attention_model(Route::Hopfield);
    let trained = attend(&hot, &token_steps()[..1], product);
    hot.beta = Mat::full(1, 1, 3.0);
    assert_ne!(attend(&hot, &token_steps()[..1], product), trained);
}

#[test]
fn forward_out_gain_multiplies_logits() {
    let mut model = attention_model(Route::Hopfield);
    let base = attend(&model, &token_steps(), product);
    model.out_gain = Mat::full(1, 1, 2.0);
    let doubled = attend(&model, &token_steps(), product);
    assert_eq!(base.len(), doubled.len());
    for (a, b) in base.iter().zip(&doubled) {
        assert!(near(*b, 2.0 * a, 1e-4), "expected 2*{a}, got {b}");
    }
}

#[test]
fn noise_reaches_the_readout_projection() {
    let model = attention_model(Route::Hopfield);
    let (out, width) = (model.out.shape(), model.q.cols);
    assert_ne!(out[1], width);
    let only_readout = |x: &Mat, w: &Mat| {
        let y = x.matmul(&w.t());
        if w.cols == 5 {
            y.map(|v| v + 1.0)
        } else {
            y
        }
    };
    let clean = attend(&model, &token_steps(), product);
    let noisy = attend(&model, &token_steps(), only_readout);
    for (a, b) in clean.iter().zip(&noisy) {
        assert!(near(*b, a + 1.0, 1e-5));
    }
}

// ---------------------------------------------------------------------------
// Transformer
// ---------------------------------------------------------------------------

const TIN: usize = 4;
const NTOK: usize = 3;
const D_MODEL: usize = 4;
const NHEADS: usize = 2;
const NCLASSES: usize = 5;

/// One matrix per sample.
type Batch = Vec<Mat>;

/// The low-rank noise of a weight: the factors of each sample.
type Factors = Vec<(Mat, Mat)>;

fn dims(num_blocks: usize) -> TransformerDims {
    TransformerDims {
        token_in_dim: TIN,
        num_tokens: NTOK,
        num_classes: NCLASSES,
        d_model: D_MODEL,
        num_heads: NHEADS,
        num_blocks,
    }
}

fn transformer(num_blocks: usize) -> SnnTransformer<Mat> {
    let d = dims(num_blocks);
    assert!(d.check());
    let raw = ((1.0 / (d.head_dim() as f32).sqrt()).exp() - 1.0).ln();
    SnnTransformer::new(
        d,
        &random_weights(),
        &|s: [usize; 2]| Mat::full(s[0], s[1], 0.0),
        Mat::full(1, 1, 1.0),
        Mat::full(1, 1, raw),
    )
}

fn each(x: &Batch, f: impl Fn(&Mat) -> Mat) -> Batch {
    x.iter().map(f).collect()
}

fn add_batches(x: &Batch, y: &Batch) -> Batch {
    x.iter().zip(y).map(|(a, b)| a.add(b)).collect()
}

fn side_by_side(x: &Mat, y: &Mat) -> Mat {
    let mut d = Vec::new();
    for i in 0..x.rows {
        d.extend_from_slice(&x.d[i * x.cols..(i + 1) * x.cols]);
        d.extend_from_slice(&y.d[i * y.cols..(i + 1) * y.cols]);
    }
    Mat::new(x.rows, x.cols + y.cols, &d)
}

fn continuous_attention(q: &Mat, k: &Mat, v: &Mat, beta: f32) -> Mat {
    let h = q.matmul(&k.t()).map(|x| x * beta);
    let step = |u: &Mat, h: &Mat| {
        let mut out = u.clone();
        for i in 0..u.rows {
            let row = &u.d[i * u.cols..(i + 1) * u.cols];
            let c = row.iter().sum::<f32>() / u.cols as f32;
            for j in 0..u.cols {
                let (x, t) = (row[j], h.d[i * u.cols + j]);
                out.d[i * u.cols + j] = x + (-x + t - 0.5 * c) / 5.0;
            }
        }
        out
    };
    let mut a = relax(&step, &h, h.clone(), 8);
    for row in a.d.chunks_mut(a.cols) {
        let max = row.iter().cloned().fold(f32::NEG_INFINITY, f32::max);
        row.iter_mut().for_each(|x| *x = (*x - max).exp());
        let sum: f32 = row.iter().sum();
        row.iter_mut().for_each(|x| *x /= sum + 1e-6);
    }
    a.matmul(v)
}

fn run_transformer(
    model: &SnnTransformer<Mat>,
    noise: &TrainNoise<Factors, Batch, Vec<f32>>,
    steps: &[Batch],
) -> Vec<Vec<f32>> {
    let n = steps[0].len();
    let pass = ForwardPass {
        model,
        noise,
        zero: vec![Mat::full(NTOK, D_MODEL, 0.0); n],
        product: |x: &Batch, w: &Mat| each(x, |m| m.matmul(&w.t())),
        perturb: |base: &Batch, x: &Batch, f: &Factors| {
            let noise = |i: usize| x[i].matmul(&f[i].1.t()).matmul(&f[i].0);
            (0..base.len()).map(|i| base[i].add(&noise(i))).collect::<Batch>()
        },
        add: add_batches,
        rate: |sum: &Batch, t: &usize| {
            each(sum, |m| m.map(|v| v / *t as f32).map(|v| sigmoid(2.0 * v / (1.0 + v.abs()))))
        },
        blend: |a: &Batch, b: &Batch, c: &Batch| {
            each(&add_batches(&add_batches(a, b), c), |m| m.map(|v| v / 3.0))
        },
        place: |x: &Batch, p: &Mat| each(x, |m| m.add(p)),
        lift: |p: &Mat| vec![p.d[0]],
        shift: |p: &Mat, s: &Vec<f32>| s.iter().map(|v| v + p.d[0]).collect::<Vec<f32>>(),
        softplus: |raw: &Vec<f32>| raw.iter().map(|v| v.exp().ln_1p()).collect::<Vec<f32>>(),
        attend: |q: &Batch, k: &Batch, v: &Batch, beta: &Vec<f32>| {
            let b = |i: usize| beta[i % beta.len()];
            (0..q.len()).map(|i| continuous_attention(&q[i], &k[i], &v[i], b(i))).collect::<Batch>()
        },
        join: |x: &Batch, y: &Batch| {
            x.iter().zip(y).map(|(a, b)| side_by_side(a, b)).collect::<Batch>()
        },
        swish: |x: &Batch| each(x, |m| m.map(|v| v * sigmoid(v))),
        pool: |x: &Batch| each(x, |m| m.mean()),
        scale: |x: &Batch, gain: &Vec<f32>| {
            let g = |i: usize| gain[i % gain.len()];
            (0..x.len()).map(|i| x[i].map(|v| v * g(i)).d).collect::<Vec<Vec<f32>>>()
        },
        copy: |x: &Batch| x.clone(),
    };
    pass.forward_batched(steps)
}

/// Two time steps of `n` samples.
fn sample_batch(n: usize) -> Vec<Batch> {
    let in_dim = dims(1).in_dim();
    let at = |i: usize| (i % 3 == 0 || i % 5 == 0) as i32 as f32;
    let sample = |t: usize, s: usize| {
        let lo = (t * n + s) * in_dim;
        Mat::new(NTOK, TIN, &(lo..lo + in_dim).map(at).collect::<Vec<f32>>())
    };
    (0..2).map(|t| (0..n).map(|s| sample(t, s)).collect()).collect()
}

#[test]
fn struct_and_es_map() {
    let model = transformer(1);
    assert_eq!(model.in_q.shape(), [D_MODEL, TIN]);
    assert_eq!(model.pos_emb.shape(), [NTOK, D_MODEL]);
    assert_eq!(model.blocks[0].q.len(), NHEADS);
    assert_eq!(model.blocks[0].q[0].shape(), [D_MODEL / NHEADS, D_MODEL]);
    assert_eq!(model.out.shape(), [NCLASSES, D_MODEL]);
    let expected = 3 + 1 + model.blocks.len() * (3 * NHEADS + 3) + 1 + 2;
    let params = model.params(&copy);
    assert_eq!(params.len(), expected);
    let es = dims(1).es_map();
    assert_eq!(es.len(), expected);
    assert_eq!(es[3], EMB_PARAM);
    assert_eq!(es[expected - 1], PARAM);
    assert_eq!(es[expected - 2], PARAM);
    for (i, &m) in es.iter().enumerate() {
        if i != 3 && i != expected - 1 && i != expected - 2 {
            assert_eq!(m, MM_PARAM);
        }
    }
    let shapes: Vec<[usize; 2]> = params.iter().map(|p| p.shape()).collect();
    assert_eq!(shapes, dims(1).param_shapes());
}

#[test]
fn forward_batched_clean_deterministic_and_shaped() {
    let model = transformer(1);
    let clean = TrainNoise::default();
    let out1 = run_transformer(&model, &clean, &sample_batch(3));
    let out2 = run_transformer(&model, &clean, &sample_batch(3));
    assert_eq!((out1.len(), out1[0].len()), (3, NCLASSES));
    assert_eq!(out1, out2);
    assert!(out1.concat().iter().all(|v| v.is_finite()));
}

fn constant_factors(params: &[Mat], mm: &[usize], n: usize) -> Vec<Factors> {
    mm.iter()
        .map(|&i| {
            let [a, b] = params[i].shape();
            vec![(Mat::full(2, a, 0.5), Mat::full(2, b, 1.0)); n]
        })
        .collect()
}

#[test]
fn snn_transformer_forward_batched_noised_differs_from_clean() {
    let model = transformer(1);
    let clean = run_transformer(&model, &TrainNoise::default(), &sample_batch(4));
    let (mm, other) = split_indices(&dims(1).es_map(), MM_PARAM);
    assert_eq!(other.len(), 3);
    let lora = constant_factors(&model.params(&copy), &mm, 4);
    let noise =
        TrainNoise { lora: &lora, mm_indices: &mm, pos_emb: None, out_gain: None, beta: None };
    let noised = run_transformer(&model, &noise, &sample_batch(4));
    assert_eq!((noised.len(), noised[0].len()), (4, NCLASSES));
    assert_ne!(clean, noised);
}

#[test]
fn noise_of_one_weight_is_a_changed_weight() {
    // Noise on one parameter is the same as adding the product of its factors to it.
    for idx in (0..16).filter(|i| *i != 3) {
        let d = dims(1);
        let model = transformer(1);
        let params = model.params(&copy);
        let [a, b] = params[idx].shape();
        let factors: Factors = vec![(
            Mat::new(2, a, &(0..2 * a).map(|i| (i as f32).sin()).collect::<Vec<f32>>()),
            Mat::new(2, b, &(0..2 * b).map(|i| (i as f32).cos()).collect::<Vec<f32>>()),
        )];
        let delta = factors[0].0.t().matmul(&factors[0].1);
        let mut moved = params.clone();
        if idx < d.out_param_index() + 1 {
            moved[idx] = moved[idx].add(&delta);
        }
        let other = SnnTransformer::write_params(moved, d);
        let noise = TrainNoise {
            lora: &[factors],
            mm_indices: &[idx],
            pos_emb: None,
            out_gain: None,
            beta: None,
        };
        let steps = sample_batch(1);
        let noisy = run_transformer(&model, &noise, &steps).concat();
        let plain = run_transformer(&other, &TrainNoise::default(), &steps).concat();
        for (x, y) in noisy.iter().zip(&plain) {
            assert!(near(*x, *y, 1e-3), "parameter {idx}: {x} against {y}");
        }
    }
}

#[test]
fn multi_block_forward_shaped() {
    for nb in 1..=3 {
        let out = run_transformer(&transformer(nb), &TrainNoise::default(), &sample_batch(2));
        assert_eq!((out.len(), out[0].len()), (2, NCLASSES));
        assert!(out.concat().iter().all(|v| v.is_finite()));
    }
}

#[test]
fn pos_emb_affects_output() {
    let mut model = transformer(1);
    let base = run_transformer(&model, &TrainNoise::default(), &sample_batch(2));
    let ones = vec![Mat::full(NTOK, D_MODEL, 1.0); 2];
    let noise =
        TrainNoise { lora: &[], mm_indices: &[], pos_emb: Some(ones), out_gain: None, beta: None };
    let moved = run_transformer(&model, &noise, &sample_batch(2));
    model.pos_emb = Mat::full(NTOK, D_MODEL, 1.0);
    let changed = run_transformer(&model, &TrainNoise::default(), &sample_batch(2));
    assert_ne!(base, changed);
    // Noise of the embedding is added to the embedding.
    assert_eq!(moved, changed);
}

#[test]
fn scalar_noise_is_per_sample() {
    let model = transformer(1);
    let base = run_transformer(&model, &TrainNoise::default(), &sample_batch(2));
    let gain = TrainNoise {
        lora: &[],
        mm_indices: &[],
        pos_emb: None,
        out_gain: Some(vec![0.0, 1.0]),
        beta: None,
    };
    let scaled = run_transformer(&model, &gain, &sample_batch(2));
    assert_eq!(scaled[0], base[0]);
    assert_eq!(scaled[1], base[1].iter().map(|v| v * 2.0).collect::<Vec<f32>>());
    let beta = TrainNoise {
        lora: &[],
        mm_indices: &[],
        pos_emb: None,
        out_gain: None,
        beta: Some(vec![0.0, 5.0]),
    };
    let heated = run_transformer(&model, &beta, &sample_batch(2));
    assert_eq!(heated[0], base[0]);
    assert_ne!(heated[1], base[1]);
}

#[test]
fn forward_batched_per_sample_independent() {
    let model = transformer(1);
    let sol = [
        [1.0_f32, 0.0, 1.0, 0.0, 0.0, 1.0, 1.0, 0.0, 0.0, 0.0, 1.0, 1.0],
        [0.0, 1.0, 0.0, 1.0, 1.0, 0.0, 0.0, 1.0, 1.0, 0.0, 0.0, 0.0],
    ];
    let step = |t: usize| {
        let (a, b) = (Mat::new(NTOK, TIN, &sol[t]), Mat::new(NTOK, TIN, &sol[1 - t]));
        vec![a.clone(), b, a]
    };
    let out = run_transformer(&model, &TrainNoise::default(), &[step(0), step(1)]);
    assert_eq!((out.len(), out[0].len()), (3, NCLASSES));
    assert_eq!(out[0], out[2]);
}

#[test]
fn weights_stand_at_their_indices() {
    let d = dims(2);
    let list: Vec<usize> = (0..4 + 2 * 9 + 3).collect();
    let model = SnnTransformer::write_params(list.clone(), d);
    assert_eq!(model.params(&|p: &usize| *p), list);
    for b in 0..2 {
        assert_eq!(d.block_base(b), 4 + 9 * b);
        for h in 0..NHEADS {
            let (q, k, v) = d.head_indices(b, h);
            let block = &model.blocks[b];
            assert_eq!((block.q[h], block.k[h], block.v[h]), (q, k, v));
        }
        let (o, ff1, ff2) = d.tail_indices(b);
        let block = &model.blocks[b];
        assert_eq!((block.o, block.ff1, block.ff2), (o, ff1, ff2));
    }
    assert_eq!(model.out, d.out_param_index());
    assert_eq!((model.pos_emb, model.out_gain, model.beta), (3, 23, 24));
}

#[test]
fn heads_must_divide_the_model() {
    let mut d = dims(1);
    d.num_heads = 3;
    assert!(!d.check());
    d.num_heads = 0;
    assert!(!d.check());
    d.num_heads = 4;
    assert_eq!(d.head_dim(), 1);
}

#[test]
fn slots_are_first_positions() {
    assert_eq!(noise_slot(&[4, 7, 9, 7], 7), Some(1));
    assert_eq!(noise_slot(&[4, 7, 9, 7], 5), None);
    let (of, other) = split_indices(&[1, 0, 1, 2], 1);
    assert_eq!((of, other), (vec![0, 2], vec![1, 3]));
}
