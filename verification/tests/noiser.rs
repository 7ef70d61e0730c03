use hyperscalees::accumulate::{AccumulateOps, Batch};
use hyperscalees::common::select_rows;
use hyperscalees::einsum::{cpu_ref, EinsumInput, EinsumOps, EinsumShape};
use hyperscalees::fitness::{convert_fitnesses_of, FitnessOps};
use hyperscalees::lora_cache::{build_lora_noise_cache, LoraNoiseCache, LoraSource};
use hyperscalees::noise::{can_reuse, epoch_thread_sign, noise_seed, DeterministicNoise, IterInfo};
use hyperscalees::noiser::{
    can_draw, init_clipped_noiser, init_noiser, AltEggRoll, BaseNoiser, EggRoll, EggRollBS,
    FrozenNoiserParams, Noise, NoiseForm, NoiseOps, NoiserKind, NoiserParams, OpenES, Sparse,
};
use hyperscalees::perturb::{
    column_mask, get_lora_update_params, get_nonlora_update_params, get_sparse_update_params,
    mask, scatter_add, sparse_matrix, LoraNoise, SparseNoise,
};
use hyperscalees::single::round_single;
use hyperscalees::solver::{AdamRule, MomentState, OptimizerState, Solver, SolverOps};
use hyperscalees::update::{
    combine_affine_grads, do_update, do_updates, get_noisy_standard, noisy_product, AffineOps,
    GradientOps,
};

// ---------------------------------------------------------------------------
// Matrices
// ---------------------------------------------------------------------------

#[derive(Clone, Debug, PartialEq)]
struct Mat {
    rows: usize,
    cols: usize,
    d: Vec<f32>,
}

impl Mat {
    fn new(rows: usize, cols: usize, d: &[f32]) -> Mat {
        assert_eq!(d.len(), rows * cols);
        Mat { rows, cols, d: d.to_vec() }
    }

    fn zeros(rows: usize, cols: usize) -> Mat {
        Mat { rows, cols, d: vec![0.0; rows * cols] }
    }

    fn shape(&self) -> [usize; 2] {
        [self.rows, self.cols]
    }

    fn map(&self, f: impl Fn(f32) -> f32) -> Mat {
        Mat { rows: self.rows, cols: self.cols, d: self.d.iter().map(|&v| f(v)).collect() }
    }

    fn zip(&self, other: &Mat, f: impl Fn(f32, f32) -> f32) -> Mat {
        assert_eq!(self.shape(), other.shape());
        let d = self.d.iter().zip(&other.d).map(|(&a, &b)| f(a, b)).collect();
        Mat { rows: self.rows, cols: self.cols, d }
    }

    fn t(&self) -> Mat {
        let mut out = Mat::zeros(self.cols, self.rows);
        for i in 0..self.rows {
            for j in 0..self.cols {
                out.d[j * self.rows + i] = self.d[i * self.cols + j];
            }
        }
        out
    }

    fn matmul(&self, other: &Mat) -> Mat {
        assert_eq!(self.cols, other.rows);
        let mut out = Mat::zeros(self.rows, other.cols);
        for i in 0..self.rows {
            for j in 0..other.cols {
                for k in 0..self.cols {
                    out.d[i * other.cols + j] +=
                        self.d[i * self.cols + k] * other.d[k * other.cols + j];
                }
            }
        }
        out
    }

    fn norm(&self) -> f32 {
        self.d.iter().map(|v| v * v).sum::<f32>().sqrt()
    }
}

fn near(a: f32, b: f32, tol: f32) -> bool {
    (a - b).abs() <= tol
}

fn all_near(a: &[f32], b: &[f32], tol: f32) -> bool {
    a.len() == b.len() && a.iter().zip(b).all(|(x, y)| near(*x, *y, tol))
}

// ---------------------------------------------------------------------------
// Operations
// ---------------------------------------------------------------------------

fn unit(numerator: u32) -> f32 {
    numerator as f32 / (1u64 << 24) as f32
}

fn normal(u: (u32, u32)) -> f32 {
    let u1 = unit(u.0).max(1e-9);
    let radius = (-2.0 * u1.ln()).sqrt();
    radius * (std::f32::consts::TAU * unit(u.1)).cos()
}

fn kept(keep: bool) -> f32 {
    if keep {
        1.0
    } else {
        0.0
    }
}

fn hushed(v: f32) -> f32 {
    v * 0.0
}

fn noise_ops(
    sigma: f32,
    rank: usize,
) -> NoiseOps<
    fn((u32, u32)) -> f32,
    impl Fn((i32, f32)) -> f32,
    fn((i32, f32)) -> f32,
    impl Fn(f32) -> f32,
    fn(f32) -> f32,
> {
    let base_sigma = sigma / (rank as f32).sqrt();
    NoiseOps {
        normal: normal as fn((u32, u32)) -> f32,
        scaled: move |s: (i32, f32)| s.1 * (s.0 as f32 * sigma),
        signed: signed as fn((i32, f32)) -> f32,
        scale: move |v: f32| v * base_sigma,
        hushed: hushed as fn(f32) -> f32,
    }
}

fn dense_form(p: &SparseNoise<f32>, shape: [usize; 2]) -> Mat {
    let [a, b] = shape;
    Mat::new(a, b, &sparse_matrix(p, a, b, 0.0, &|v: (f32, f32)| v.0 + v.1))
}

fn sign(v: f32) -> f32 {
    if v > 0.0 {
        1.0
    } else if v < 0.0 {
        -1.0
    } else {
        0.0
    }
}

fn gradient_ops(
    sigma: f32,
    rank: usize,
) -> GradientOps<
    impl Fn(&[usize; 2]) -> Mat,
    impl Fn(&Mat, &Noise<f32>, &f32) -> Mat,
    impl Fn(f32) -> f32,
    fn(f32) -> f32,
    impl Fn(&Mat, &(usize, usize, usize)) -> Mat,
    impl Fn(&Mat, &usize) -> Mat,
> {
    GradientOps {
        zeros: |s: &[usize; 2]| Mat::zeros(s[0], s[1]),
        add: move |acc: &Mat, noise: &Noise<f32>, score: &f32| {
            let term = match noise {
                Noise::Zero => Mat::zeros(acc.rows, acc.cols),
                Noise::Dense(v) => Mat::new(acc.rows, acc.cols, v),
                Noise::Lora(f) => {
                    let a = Mat::new(acc.rows, rank, &f.a);
                    let b = Mat::new(acc.cols, rank, &f.b);
                    a.matmul(&b.t())
                }
                Noise::Sparse(p) => dense_form(p, acc.shape()),
            };
            acc.zip(&term, |x, y| x + y * score)
        },
        sign_a: move |v: f32| sign(v) * sigma / (rank as f32).sqrt(),
        sign_b: sign as fn(f32) -> f32,
        mean: |acc: &Mat, share: &(usize, usize, usize)| {
            let (n, num, den) = *share;
            acc.map(|v| v * (num as f32 / den as f32 / n as f32))
        },
        finish: |g: &Mat, n: &usize| {
            let root = (*n as f32).sqrt();
            g.map(|v| -(v * root))
        },
    }
}

fn clip(grads: &Vec<Mat>, max_norm: &f32) -> Vec<Mat> {
    let norm = grads.iter().map(|g| g.norm().powi(2)).sum::<f32>().sqrt();
    if norm > *max_norm && norm > 0.0 {
        let scale = max_norm / norm;
        grads.iter().map(|g| g.map(|v| v * scale)).collect()
    } else {
        grads.clone()
    }
}

fn sgd(p: &Mat, g: &Mat, lr: &f32) -> Mat {
    p.zip(g, |x, y| x - y * lr)
}

fn first(m: &Mat, g: &Mat, beta: &f32) -> Mat {
    m.zip(g, |x, y| x * beta + y * (1.0 - beta))
}

fn second(v: &Mat, g: &Mat, beta: &f32) -> Mat {
    v.zip(g, |x, y| x * beta + y * y * (1.0 - beta))
}

fn adam(p: &Mat, m: &Mat, v: &Mat, rule: &AdamRule<f32>) -> Mat {
    let t = rule.step as f32;
    let bc1 = 1.0 - rule.beta1.powf(t);
    let bc2 = 1.0 - rule.beta2.powf(t);
    let wd = rule.weight_decay.unwrap_or(0.0);
    let step = m.zip(v, |x, y| -rule.lr * (x / bc1) / ((y / bc2).sqrt() + rule.eps));
    p.zip(&step, |x, y| x + y + x * wd)
}

type Sgd = fn(&Mat, &Mat, &f32) -> Mat;
type Adam = fn(&Mat, &Mat, &Mat, &AdamRule<f32>) -> Mat;
type Clip = fn(&Vec<Mat>, &f32) -> Vec<Mat>;

fn solver_ops() -> SolverOps<Sgd, Sgd, Sgd, Adam, Clip> {
    SolverOps { sgd, first, second, adam, clip }
}

fn adam_solver(lr: f32) -> Solver<f32> {
    Solver::Adam { lr, beta1: 0.9, beta2: 0.999, eps: 1e-8 }
}

fn adamw_solver(lr: f32) -> Solver<f32> {
    Solver::AdamW { lr, beta1: 0.9, beta2: 0.999, eps: 1e-8, weight_decay: 1e-4 }
}

fn zeros_like(p: &Mat) -> Mat {
    Mat::zeros(p.rows, p.cols)
}

fn copy(p: &Mat) -> Mat {
    p.clone()
}

fn frozen_with(
    group_size: i32,
    freeze_nonlora: bool,
    noise_reuse: i32,
    rank: usize,
    solver: Solver<f32>,
) -> FrozenNoiserParams<f32> {
    FrozenNoiserParams { group_size, freeze_nonlora, noise_reuse, rank, solver }
}

fn noiser_with(
    sigma: f32,
    frozen: &FrozenNoiserParams<f32>,
    params: &[Mat],
) -> NoiserParams<f32, Mat> {
    NoiserParams { sigma, opt_state: frozen.solver.init_state(params, &zeros_like) }
}

fn product(p: &Mat, noise: &Noise<f32>, x: &Mat) -> Mat {
    let base = x.matmul(&p.t());
    match noise {
        Noise::Zero => base,
        Noise::Dense(v) => x.matmul(&p.zip(&Mat::new(p.rows, p.cols, v), |a, b| a + b).t()),
        Noise::Lora(f) => {
            let rank = f.a.len() / p.rows;
            let a = Mat::new(p.rows, rank, &f.a);
            let b = Mat::new(p.cols, rank, &f.b);
            base.zip(&x.matmul(&b).matmul(&a.t()), |u, v| u + v)
        }
        Noise::Sparse(s) => {
            let mut out = base;
            let add = |v: (f32, f32, f32)| v.0 + v.1 * v.2;
            scatter_add(&mut out.d, &x.d, s, x.cols, p.rows, &add);
            out
        }
    }
}

fn transposed_product(p: &Mat, noise: &Noise<f32>, x: &Mat) -> Mat {
    product(&p.t(), noise, x)
}

fn perturbed(p: &Mat, noise: &Noise<f32>, shape: &[usize; 2]) -> Mat {
    match noise {
        Noise::Dense(v) => p.zip(&Mat::new(shape[0], shape[1], v), |a, b| a + b),
        _ => p.clone(),
    }
}

fn do_mm(
    kind: NoiserKind,
    frozen: &FrozenNoiserParams<f32>,
    sigma: f32,
    param: &Mat,
    key: u64,
    info: Option<IterInfo>,
    x: &Mat,
) -> Mat {
    let ops = noise_ops(sigma, frozen.rank);
    noisy_product(kind, &ops, frozen, param, param.shape(), key, info, x, &product)
}

fn noisy_standard(
    kind: NoiserKind,
    frozen: &FrozenNoiserParams<f32>,
    sigma: f32,
    param: &Mat,
    key: u64,
    info: Option<IterInfo>,
) -> Mat {
    let ops = noise_ops(sigma, frozen.rank);
    get_noisy_standard(kind, &ops, frozen, param, param.shape(), key, info, &perturbed)
}

fn gradient(
    kind: NoiserKind,
    class: i32,
    frozen: &FrozenNoiserParams<f32>,
    sigma: f32,
    shape: [usize; 2],
    key: u64,
    scores: &[f32],
    infos: &[IterInfo],
) -> Mat {
    let ops = noise_ops(sigma, frozen.rank);
    let arith = gradient_ops(sigma, frozen.rank);
    do_update(kind, class, &ops, &arith, frozen, shape, key, scores, infos)
}

/// The gradient before it is negated and rescaled.
fn plain_gradient(
    kind: NoiserKind,
    class: i32,
    frozen: &FrozenNoiserParams<f32>,
    sigma: f32,
    shape: [usize; 2],
    key: u64,
    scores: &[f32],
    infos: &[IterInfo],
) -> Mat {
    let root = (scores.len() as f32).sqrt();
    gradient(kind, class, frozen, sigma, shape, key, scores, infos).map(|v| -v / root)
}

fn updates(
    kind: NoiserKind,
    frozen: &FrozenNoiserParams<f32>,
    noiser: &mut NoiserParams<f32, Mat>,
    params: &[Mat],
    keys: &[u64],
    scores: &[f32],
    infos: &[IterInfo],
    classes: &[i32],
) -> Vec<Mat> {
    let ops = noise_ops(noiser.sigma, frozen.rank);
    let arith = gradient_ops(noiser.sigma, frozen.rank);
    let shapes: Vec<[usize; 2]> = params.iter().map(|p| p.shape()).collect();
    do_updates(
        kind, &ops, &arith, &solver_ops(), &copy, frozen, noiser, params, &shapes, keys, scores,
        infos, classes,
    )
}

fn info(epoch: i32, thread_id: i32) -> IterInfo {
    IterInfo { epoch, thread_id }
}

fn dense(sigma: f32, key: u64, i: IterInfo, elems: usize, reuse: i32, keep: bool) -> Vec<f32> {
    let ops = noise_ops(sigma, 1);
    get_nonlora_update_params(
        key, &i, elems, reuse, keep, &ops.normal, &ops.scaled, &ops.hushed,
    )
}

fn lora(
    base_sigma: f32,
    key: u64,
    rank: usize,
    i: IterInfo,
    a: usize,
    b: usize,
    reuse: i32,
    keep: bool,
) -> LoraNoise<f32> {
    let ops = noise_ops(base_sigma, 1);
    get_lora_update_params(
        key, rank, &i, a, b, reuse, keep, &ops.normal, &ops.signed, &ops.scale, &ops.hushed,
    )
}

fn normals(key: u64, epoch: i32, thread: i32, n: usize) -> Vec<f32> {
    DeterministicNoise::new(noise_seed(key, epoch, thread)).normal_values(n, &normal)
}

fn signed(s: (i32, f32)) -> f32 {
    s.1 * s.0 as f32
}

fn source(key: u64, rank: usize, epoch: i32, noise_reuse: i32, a: usize, b: usize) -> LoraSource {
    LoraSource { key, rank, a, b, epoch, noise_reuse }
}

/// The factors of each row of a flat noise buffer, the first one scaled.
fn split_rows(flat: &[f32], a: usize, b: usize, rank: usize, base_sigma: f32) -> Vec<(Vec<f32>, Vec<f32>)> {
    flat.chunks((a + b) * rank)
        .map(|row| {
            let (lo, hi) = row.split_at(b * rank);
            (hi.iter().map(|v| v * base_sigma).collect(), lo.to_vec())
        })
        .collect()
}

// ---------------------------------------------------------------------------
// The identity noiser and the stream
// ---------------------------------------------------------------------------

#[test]
fn base_noiser_do_mm_is_x_at_param_t() {
    let param = Mat::new(2, 3, &[1.0, 2.0, 3.0, 4.0, 5.0, 6.0]);
    let x = Mat::new(2, 3, &[1.0, 1.0, 1.0, 2.0, 2.0, 2.0]);
    let frozen = frozen_with(0, false, 0, 1, Solver::sgd(0.1));
    let kind = BaseNoiser.kind();
    let out = do_mm(kind, &frozen, 1.0, &param, 1, None, &x);
    assert_eq!(out.d, vec![6.0, 15.0, 12.0, 30.0]);
    let out2 = do_mm(kind, &frozen, 1.0, &param, 1, Some(info(0, 0)), &x);
    assert_eq!(out2.d, vec![6.0, 15.0, 12.0, 30.0]);
}

#[test]
fn base_noiser_do_tmm_is_x_at_param() {
    let param = Mat::new(3, 2, &[1.0, 4.0, 2.0, 5.0, 3.0, 6.0]);
    let x = Mat::new(1, 3, &[1.0, 1.0, 1.0]);
    let frozen = frozen_with(0, false, 0, 1, Solver::sgd(0.1));
    let ops = noise_ops(1.0, 1);
    let out = noisy_product(
        BaseNoiser.kind(), &ops, &frozen, &param, param.shape(), 1, None, &x, &transposed_product,
    );
    assert_eq!(out.d, vec![6.0, 15.0]);
}

#[test]
fn base_noiser_do_emb_selects_rows() {
    let table = [1.0_f32, 2.0, 3.0, 4.0, 5.0, 6.0, 7.0, 8.0, 9.0];
    assert!(BaseNoiser.kind().embeds());
    assert_eq!(select_rows(&table, 3, &[2, 0]), vec![7.0, 8.0, 9.0, 1.0, 2.0, 3.0]);
}

#[test]
fn only_the_base_noiser_embeds() {
    assert!(BaseNoiser.kind().embeds());
    for kind in [EggRoll.kind(), AltEggRoll.kind(), EggRollBS.kind(), OpenES.kind(), Sparse.kind()] {
        assert!(!kind.embeds());
    }
}

#[test]
fn base_noiser_get_noisy_standard_is_identity() {
    let param = Mat::new(1, 2, &[1.0, 2.0]);
    let frozen = frozen_with(0, false, 0, 1, Solver::sgd(0.1));
    let out = noisy_standard(BaseNoiser.kind(), &frozen, 1.0, &param, 1, None);
    assert_eq!(out.d, vec![1.0, 2.0]);
}

#[test]
fn base_noiser_convert_fitnesses_is_identity_and_do_updates_noop() {
    let (plain, baseline) = (fitness_ops(1e-5, false), fitness_ops(1e-8, true));
    let raw = [1.0_f32, 2.0, 3.0];
    let out = convert_fitnesses_of(BaseNoiser.kind(), &plain, &baseline, 0, &raw);
    assert_eq!(out, vec![1.0, 2.0, 3.0]);
    assert_eq!(
        convert_fitnesses_of(Sparse.kind(), &plain, &baseline, 0, &raw),
        plain.convert_fitnesses_impl(0, &raw)
    );
    assert_eq!(
        convert_fitnesses_of(EggRollBS.kind(), &plain, &baseline, 3, &raw),
        baseline.convert_fitnesses(3, &raw)
    );

    let frozen = frozen_with(0, false, 0, 1, Solver::sgd(0.1));
    let mut noiser = noiser_with(1.0, &frozen, &[]);
    let p = Mat::new(1, 2, &[1.0, -2.0]);
    let updated = updates(
        BaseNoiser.kind(), &frozen, &mut noiser, &[p], &[7], &[1.0, 2.0, 3.0], &[info(0, 0)], &[1],
    );
    assert_eq!(updated[0].d, vec![1.0, -2.0]);
    assert_eq!(noiser.opt_state.step, 0);
}

#[test]
fn deterministic_noise_is_repeatable_and_varies_with_seed() {
    let mut a = DeterministicNoise::new(1234);
    let mut b = DeterministicNoise::new(1234);
    let mut c = DeterministicNoise::new(1235);
    for _ in 0..32 {
        assert_eq!(a.standard_normal(&normal), b.standard_normal(&normal));
    }
    let s1: Vec<f32> = DeterministicNoise::new(1).normal_values(2 * 3, &normal);
    let s2: Vec<f32> = DeterministicNoise::new(2).normal_values(2 * 3, &normal);
    let _ = c.standard_normal(&normal);
    assert!(s1 != s2);
}

#[test]
fn stream_follows_xorshift() {
    let mut stream = DeterministicNoise::new(0);
    let mut x: u64 = 1;
    for _ in 0..100 {
        x ^= x << 13;
        x ^= x >> 7;
        x ^= x << 17;
        assert_eq!(stream.next_u64(), x);
        assert_ne!(x, 0);
    }
    let mut units = DeterministicNoise::new(77);
    let mut words = DeterministicNoise::new(77);
    for _ in 0..10 {
        assert_eq!(units.next_unit() as u64, words.next_u64() >> 40);
    }
}

#[test]
fn noise_seeds_differ_where_one_argument_does() {
    let base = noise_seed(42, 3, 5);
    for d in [1_i32, 2, -1, -7, i32::MIN, i32::MAX - 5] {
        assert_ne!(noise_seed(42 ^ d as u64, 3, 5), base);
        assert_ne!(noise_seed(42, 3_i32.wrapping_add(d), 5), base);
        assert_ne!(noise_seed(42, 3, 5_i32.wrapping_add(d)), base);
    }
}

#[test]
fn noise_seed_matches_its_formula() {
    for (key, epoch, thread) in [(1u64, 0i32, 0i32), (42, -3, 7), (u64::MAX, i32::MIN, -1)] {
        let mut h = key ^ 0x9E37_79B9_7F4A_7C15u64;
        h = h.wrapping_mul(0xBF58_476D_1CE4_E5B9);
        h ^= (epoch as u64).wrapping_mul(0x94D0_49BB_1331_11EB);
        h = h.rotate_left(17) ^ (thread as u64);
        h ^= h >> 33;
        h = h.wrapping_mul(0xBF58_476D_1CE4_E5B9);
        h ^= h >> 29;
        h = h.wrapping_mul(0x94D0_49BB_1331_11EB);
        h ^= h >> 32;
        assert_eq!(noise_seed(key, epoch, thread), h);
    }
}

#[test]
fn epochs_threads_and_signs() {
    assert_eq!(epoch_thread_sign(&info(7, 5), 0), (0, 2, -1));
    assert_eq!(epoch_thread_sign(&info(7, 4), 3), (2, 2, 1));
    assert_eq!(epoch_thread_sign(&info(-7, -5), 3), (-2, -2, -1));
    assert_eq!(epoch_thread_sign(&info(i32::MIN, i32::MIN), 2), (i32::MIN / 2, i32::MIN / 2, 1));
}

#[test]
fn threads_of_a_pair_mirror_each_other() {
    for i in 0..4 {
        let even = dense(0.5, 9, info(3, 2 * i), 6, 0, true);
        let odd = dense(0.5, 9, info(3, 2 * i + 1), 6, 0, true);
        assert!(even.iter().zip(&odd).all(|(x, y)| *x == -*y));
    }
}

#[test]
fn noise_is_fixed_without_reuse_and_shared_within_a_group() {
    assert_eq!(dense(0.5, 9, info(1, 2), 6, 0, true), dense(0.5, 9, info(8, 2), 6, 0, true));
    assert_eq!(dense(0.5, 9, info(6, 2), 6, 3, true), dense(0.5, 9, info(8, 2), 6, 3, true));
    assert_ne!(dense(0.5, 9, info(5, 2), 6, 3, true), dense(0.5, 9, info(6, 2), 6, 3, true));
}

// ---------------------------------------------------------------------------
// Low-rank noise
// ---------------------------------------------------------------------------

#[test]
fn lora_update_params_shape_determinism_and_thread_var() {
    let (a, b, r, key) = (2usize, 3usize, 2usize, 42u64);
    let one = lora(0.5, key, r, info(1, 0), a, b, 0, true);
    assert_eq!(one.a.len(), a * r);
    assert_eq!(one.b.len(), b * r);
    let two = lora(0.5, key, r, info(1, 0), a, b, 0, true);
    assert_eq!(one.a, two.a);
    assert_eq!(one.b, two.b);
    let three = lora(0.5, key, r, info(1, 4), a, b, 0, true);
    assert!(one.a.iter().zip(three.a.iter()).any(|(x, y)| x != y));
}

#[test]
fn batched_lora_noise_matches_per_thread_get_lora_update_params() {
    let (a, b, r) = (2usize, 3usize, 2usize);
    let tids = [0_i32, 1, 2];
    let (epoch, noise_reuse) = (5_i32, 1_i32);
    let base_sigma = 0.25_f32;
    let key = 1234u64;
    let scaled = |v: f32| v * base_sigma;
    let batch =
        source(key, r, epoch, noise_reuse, a, b).batched_lora_noise(&tids, 2, &normal, &signed, &scaled);
    assert_eq!((batch.a.len(), batch.b.len()), (3 * a * r, 3 * b * r));
    for i in 0..3 {
        let one = lora(base_sigma, key, r, info(epoch, tids[i]), a, b, noise_reuse, true);
        assert_eq!(batch.a[i * a * r..(i + 1) * a * r], one.a);
        assert_eq!(batch.b[i * b * r..(i + 1) * b * r], one.b);
    }
}

#[test]
fn batched_lora_noise_empty_tids_returns_empty_tensors() {
    let same = |v: f32| v;
    let batch = source(1, 2, 0, 0, 2, 3).batched_lora_noise(&[], 4, &normal, &signed, &same);
    assert!(batch.a.is_empty() && batch.b.is_empty());
    assert!(source(1, 2, 0, 0, 2, 3).generate_lora_flat(&[], 4, &normal, &signed).is_empty());
}

#[test]
fn workers_do_not_change_the_noise() {
    let tids: Vec<i32> = (0..7).collect();
    let s = source(5, 2, 3, 1, 2, 1);
    let one = s.generate_lora_flat(&tids, 1, &normal, &signed);
    for cores in 2..10 {
        assert_eq!(s.generate_lora_flat(&tids, cores, &normal, &signed), one);
    }
    let mut parts = s.rows(&tids, 0, 3, &normal, &signed);
    parts.extend(s.rows(&tids, 3, 7, &normal, &signed));
    assert_eq!(parts, one);
}

fn cache_of(shapes: &[[usize; 2]], keys: &[u64], classes: &[i32], batch: usize, rank: usize) -> LoraNoiseCache<f32> {
    build_lora_noise_cache(shapes, keys, classes, batch, rank, 0, 3, &normal, &signed)
}

#[test]
fn lora_noise_cache_slice_upload_matches_batched_lora_noise() {
    let (a, b, r, batch) = (2usize, 3usize, 2usize, 5usize);
    let base_sigma = 0.25_f32;
    let key = 99u64;
    let cache = cache_of(&[[a, b]], &[key], &[1], batch, r);
    assert_eq!(cache.buffers.len(), 1);
    assert!(cache.buffers[0].is_some());
    let cached = cache.slice_rows(0, 2, 5);
    let tids = [2_i32, 3, 4];
    let fresh = source(key, r, 0, 0, a, b).generate_lora_flat(&tids, 2, &normal, &signed);
    assert_eq!(
        split_rows(&cached, a, b, r, base_sigma),
        split_rows(&fresh, a, b, r, base_sigma)
    );
    let scaled = |v: f32| v * base_sigma;
    let parts = cache.slice_upload(0, 2, 5, &scaled);
    let drawn = source(key, r, 0, 0, a, b).batched_lora_noise(&tids, 2, &normal, &signed, &scaled);
    assert_eq!((parts.a, parts.b), (drawn.a, drawn.b));
    assert!(cache.has_rows(0, 5) && !cache.has_rows(0, 6) && !cache.has_rows(1, 0));
    // The epoch does not matter.
    let later = source(key, r, 17, 0, a, b).generate_lora_flat(&tids, 2, &normal, &signed);
    assert_eq!(cached, later);
}

#[test]
fn only_matrices_are_cached() {
    let cache = cache_of(&[[1, 1], [2, 1], [1, 2]], &[1, 2, 3, 4], &[0, 1, 3], 2, 1);
    let kinds: Vec<bool> = cache.buffers.iter().map(|b| b.is_some()).collect();
    assert_eq!(kinds, vec![false, true, false]);
    assert_eq!((cache.batch, cache.rank), (2, 1));
    assert_eq!(cache.shapes, vec![[1, 1], [2, 1], [1, 2]]);
}

// ---------------------------------------------------------------------------
// EggRoll
// ---------------------------------------------------------------------------

#[test]
fn simple_lora_update_matches_hand_computed() {
    let (key, sigma, r) = (7u64, 0.5_f32, 1usize);
    let frozen = frozen_with(0, false, 0, r, Solver::sgd(0.1));
    let lv = normals(key, 0, 0, 4);
    let sc = sigma / (r as f32).sqrt();
    let mut expected = [0.0_f32; 4];
    for i in 0..2 {
        for j in 0..2 {
            expected[i * 2 + j] = (sc * lv[2 + i]) * lv[j];
        }
    }
    let got = plain_gradient(EggRoll.kind(), 1, &frozen, sigma, [2, 2], key, &[1.0], &[info(0, 0)]);
    assert!(all_near(&got.d, &expected, 1e-4), "got {got:?} exp {expected:?}");
}

#[test]
fn eggroll_do_update_is_neg_grad_times_sqrt_n() {
    let (sigma, key) = (0.3_f32, 5u64);
    let frozen = frozen_with(0, false, 0, 1, Solver::sgd(0.1));
    let expected: Vec<f32> = normals(key, 0, 0, 2).iter().map(|v| -(sigma * v)).collect();
    let got = gradient(EggRoll.kind(), 0, &frozen, sigma, [2, 1], key, &[1.0], &[info(0, 0)]);
    assert!(all_near(&got.d, &expected, 1e-5), "got {got:?} exp {expected:?}");
}

fn sgd_pipeline(kind: NoiserKind) {
    let (lr, sigma, key) = (0.1_f32, 0.5_f32, 99u64);
    let frozen = frozen_with(0, false, 0, 1, Solver::sgd(lr));
    let mut noiser = noiser_with(sigma, &frozen, &[]);
    let p = Mat::new(1, 2, &[1.0, -1.0]);
    let fitness = [1.0_f32, 2.0];
    let infos = [info(0, 0), info(0, 1)];
    let mut g = [0.0_f32; 2];
    for (i, it) in infos.iter().enumerate() {
        let (te, tt, sign) = epoch_thread_sign(it, 0);
        for (k, v) in normals(key, te, tt, 2).iter().enumerate() {
            g[k] += fitness[i] * sign as f32 * sigma * v;
        }
    }
    for x in g.iter_mut() {
        *x /= 2.0;
    }
    let n_root = (2.0_f32).sqrt();
    let expected = [1.0 + lr * g[0] * n_root, -1.0 + lr * g[1] * n_root];
    let updated = updates(kind, &frozen, &mut noiser, &[p], &[key], &fitness, &infos, &[0]);
    assert!(all_near(&updated[0].d, &expected, 1e-4), "got {updated:?} exp {expected:?}");
}

#[test]
fn do_updates_sgd_full_pipeline_matches_formula() {
    sgd_pipeline(EggRoll.kind());
}

#[test]
fn do_updates_adam_runs_without_panic() {
    let frozen = frozen_with(0, false, 0, 2, adam_solver(0.01));
    let p = Mat::new(2, 2, &[1.0, 2.0, 3.0, 4.0]);
    let mut noiser = noiser_with(0.5, &frozen, &[p.clone()]);
    let infos = [info(0, 0), info(0, 2)];
    let kind = EggRoll.kind();
    for (key, fitness, class) in [(3u64, [1.0, 2.0], 1), (4, [1.0, 2.0], 0), (5, [0.5, -1.0], 1)] {
        let updated = updates(
            kind, &frozen, &mut noiser, &[p.clone()], &[key], &fitness, &infos, &[class],
        );
        assert!(updated[0].d.iter().all(|x| x.is_finite()));
    }
    assert_eq!(noiser.opt_state.step, 3);
}

fn accumulate_ops(
    sigma: f32,
    rank: usize,
) -> AccumulateOps<
    fn((u32, u32)) -> f32,
    fn((i32, f32)) -> f32,
    impl Fn((i32, f32)) -> f32,
    impl Fn(&[usize; 2]) -> Mat,
    impl Fn(&Mat, &Vec<f32>, &Vec<f32>, &[usize; 2]) -> Mat,
    impl Fn(&Mat, &Vec<f32>, &Vec<f32>, &[usize; 2]) -> Mat,
    impl Fn(&Mat, &usize) -> Mat,
> {
    let base_sigma = sigma / (rank as f32).sqrt();
    AccumulateOps {
        normal: normal as fn((u32, u32)) -> f32,
        signed: signed as fn((i32, f32)) -> f32,
        scaled: move |s: (i32, f32)| s.0 as f32 * sigma * s.1,
        zeros: |s: &[usize; 2]| Mat::zeros(s[0], s[1]),
        add_lora: move |acc: &Mat, flat: &Vec<f32>, scores: &Vec<f32>, s: &[usize; 2]| {
            let mut sum = acc.clone();
            for (i, (a, b)) in split_rows(flat, s[0], s[1], rank, base_sigma).iter().enumerate() {
                let term = Mat::new(s[0], rank, a).matmul(&Mat::new(s[1], rank, b).t());
                sum = sum.zip(&term, |x, y| x + y * scores[i]);
            }
            sum
        },
        add_dense: |acc: &Mat, flat: &Vec<f32>, scores: &Vec<f32>, s: &[usize; 2]| {
            let mut sum = acc.clone();
            for (i, row) in flat.chunks(s[0] * s[1]).enumerate() {
                sum = sum.zip(&Mat::new(s[0], s[1], row), |x, y| x + y * scores[i]);
            }
            sum
        },
        rescale: |g: &Mat, batch: &usize| {
            let scale = -1.0 / (*batch as f32).sqrt();
            g.map(|v| v * scale)
        },
    }
}

const CONV: [f32; 12] =
    [1.0, -0.5, 2.0, 0.5, -1.0, 1.5, 0.25, -0.75, 1.0, -0.25, 0.75, -1.5];

#[test]
fn accumulated_update_matches_do_updates_and_steps_once() {
    let (lr, sigma, rank) = (0.01_f32, 0.5_f32, 2usize);
    let frozen = frozen_with(0, false, 0, rank, adamw_solver(lr));
    let p = Mat::new(2, 3, &[0.1, 0.2, 0.3, 0.4, 0.5, 0.6]);
    let thread_ids: Vec<i32> = (0..12).collect();
    let infos: Vec<IterInfo> = thread_ids.iter().map(|&t| info(3, t)).collect();
    for class in [1, 0] {
        let mut noiser_full = noiser_with(sigma, &frozen, &[p.clone()]);
        let full = updates(
            EggRoll.kind(), &frozen, &mut noiser_full, &[p.clone()], &[42], &CONV, &infos, &[class],
        );
        let mut noiser_acc = noiser_with(sigma, &frozen, &[p.clone()]);
        let batch = Batch {
            shapes: &[[2, 3]],
            base_keys: &[42],
            es_classes: &[class],
            scores: &CONV,
            thread_ids: &thread_ids,
            epoch: 3,
            noise_reuse: 0,
            rank,
            freeze_nonlora: false,
            chunk: 4,
            accumulate: 3,
            cores: 2,
            cache: None,
        };
        let acc = accumulate_ops(sigma, rank).accumulated_update_cached(
            &solver_ops(), &frozen, &mut noiser_acc, &[p.clone()], &batch,
        );
        let max_diff = full[0]
            .d
            .iter()
            .zip(acc[0].d.iter())
            .map(|(x, y)| (x - y).abs())
            .fold(0.0_f32, f32::max);
        assert!(max_diff < 1e-5, "max diff = {max_diff}");
        assert_eq!(noiser_acc.opt_state.step, 1);
        assert_eq!(noiser_full.opt_state.step, 1);
    }
}

#[test]
fn accumulated_update_leaves_frozen_parameters() {
    let (sigma, rank) = (0.5_f32, 2usize);
    let thread_ids: Vec<i32> = (0..12).collect();
    let infos: Vec<IterInfo> = thread_ids.iter().map(|&t| info(3, t)).collect();
    let params =
        [Mat::new(2, 3, &[0.1, 0.2, 0.3, 0.4, 0.5, 0.6]), Mat::new(1, 2, &[0.7, -0.8])];
    let cache = cache_of(&[[2, 3], [1, 2]], &[42, 7], &[1, 0], 12, rank);
    for cached in [false, true] {
        for freeze in [true, false] {
            let frozen = frozen_with(0, freeze, 0, rank, Solver::sgd(0.1));
            let mut noiser_full = noiser_with(sigma, &frozen, &params);
            let full = updates(
                EggRoll.kind(), &frozen, &mut noiser_full, &params, &[42, 7], &CONV, &infos, &[1, 0],
            );
            let batch = Batch {
                shapes: &[[2, 3], [1, 2]],
                base_keys: &[42, 7],
                es_classes: &[1, 0],
                scores: &CONV,
                thread_ids: &thread_ids,
                epoch: 3,
                noise_reuse: 0,
                rank,
                freeze_nonlora: freeze,
                chunk: 4,
                accumulate: 3,
                cores: 2,
                cache: if cached { Some(&cache) } else { None },
            };
            let mut noiser_acc = noiser_with(sigma, &frozen, &params);
            let acc = accumulate_ops(sigma, rank).accumulated_update_cached(
                &solver_ops(), &frozen, &mut noiser_acc, &params, &batch,
            );
            assert_eq!(acc[1] == params[1], freeze);
            assert_eq!(full[1] == params[1], freeze);
            assert_ne!(acc[0], params[0]);
            for i in 0..2 {
                assert!(all_near(&acc[i].d, &full[i].d, 1e-5));
            }
            assert_eq!((noiser_acc.sigma, noiser_acc.opt_state.step), (sigma, 0));
        }
    }
}

#[test]
fn the_number_of_chunks_does_not_matter() {
    let thread_ids: Vec<i32> = (0..12).collect();
    let ops = accumulate_ops(0.5, 2);
    let plan = |accumulate: usize, chunk: usize| -> Vec<Mat> {
        let batch = Batch {
            shapes: &[[2, 3], [1, 2]],
            base_keys: &[42, 7],
            es_classes: &[1, 0],
            scores: &CONV,
            thread_ids: &thread_ids,
            epoch: 3,
            noise_reuse: 1,
            rank: 2,
            freeze_nonlora: false,
            chunk,
            accumulate,
            cores: 2,
            cache: None,
        };
        ops.gradients(&batch)
    };
    let whole = plan(1, 12);
    assert!(whole.iter().all(|g| g.d.iter().any(|v| *v != 0.0)));
    for (accumulate, chunk) in [(2, 6), (3, 4), (12, 1)] {
        for (g, w) in plan(accumulate, chunk).iter().zip(&whole) {
            assert!(all_near(&g.d, &w.d, 1e-5));
        }
    }
}

#[test]
fn accumulated_update_is_the_same_with_a_cache() {
    let rank = 2;
    let thread_ids: Vec<i32> = (0..12).collect();
    let cache = cache_of(&[[2, 3], [1, 1]], &[42, 7], &[1, 0], 12, rank);
    let ops = accumulate_ops(0.5, rank);
    let mut batch = Batch {
        shapes: &[[2, 3], [1, 1]],
        base_keys: &[42, 7],
        es_classes: &[1, 0],
        scores: &CONV,
        thread_ids: &thread_ids,
        epoch: 9,
        noise_reuse: 0,
        rank,
        freeze_nonlora: false,
        chunk: 4,
        accumulate: 3,
        cores: 2,
        cache: None,
    };
    let plain: Vec<Mat> = ops.gradients(&batch);
    batch.cache = Some(&cache);
    let cached: Vec<Mat> = ops.gradients(&batch);
    assert_eq!(plain, cached);
    // Parameters of other classes, and those without a key, do not move.
    batch.cache = None;
    batch.es_classes = &[3];
    let still: Vec<Mat> = ops.gradients(&batch);
    assert!(still.iter().all(|g| g.d.iter().all(|v| *v == 0.0)));
    assert_eq!(still.len(), 2);
}

fn fitness_ops(
    eps: f32,
    baseline: bool,
) -> FitnessOps<
    f32,
    impl Fn((f32, f32)) -> f32,
    impl Fn(f32) -> f32,
    impl Fn((f32, usize)) -> f32,
    impl Fn((f32, f32)) -> f32,
    impl Fn((f32, f32, f32, bool)) -> f32,
> {
    FitnessOps {
        zero: 0.0,
        add: |p: (f32, f32)| p.0 + p.1,
        square: |x: f32| x * x,
        over: |p: (f32, usize)| p.0 / p.1 as f32,
        deviation: move |p: (f32, f32)| {
            let var = p.0 - p.1 * p.1;
            if baseline {
                var.sqrt() + eps
            } else {
                (var + eps).sqrt()
            }
        },
        z: |p: (f32, f32, f32, bool)| (p.0 - p.1) / p.2 * kept(p.3),
    }
}

fn global_and_group() {
    let ops = fitness_ops(1e-5, false);
    let raw = [1.0_f32, 2.0, 3.0, 4.0];
    let g = ops.convert_fitnesses_impl(0, &raw);
    assert!(g.iter().map(|x| x * x).sum::<f32>() / 4.0 - 1.0 < 1e-3);
    assert!(g.iter().sum::<f32>() / 4.0 < 1e-3);
    let out = ops.convert_fitnesses_impl(2, &raw);
    let e = 0.5 / 1.11803399_f32;
    assert!(all_near(&out, &[-e, e, -e, e], 1e-4), "{out:?}");
}

#[test]
fn convert_fitnesses_global_is_zero_mean_unit_std() {
    let out = fitness_ops(1e-5, false).convert_fitnesses_impl(0, &[1.0_f32, 2.0, 3.0, 4.0]);
    assert!(out.iter().map(|x| x * x).sum::<f32>() / 4.0 - 1.0 < 1e-3);
    assert!(out.iter().sum::<f32>() / 4.0 < 1e-3);
}

#[test]
fn convert_fitnesses_group_matches_hand_computed() {
    let out = fitness_ops(1e-5, false).convert_fitnesses_impl(2, &[1.0_f32, 2.0, 3.0, 4.0]);
    let e = 0.5 / 1.11803399;
    assert!(all_near(&out, &[-e, e, -e, e], 1e-4), "{out:?}");
}

#[test]
fn convert_fitnesses_global_and_group_use_global_var() {
    global_and_group();
}

#[test]
fn convert_fitnesses_uses_global_denominator() {
    global_and_group();
}

#[test]
fn fitnesses_of_nothing_are_nothing() {
    let ops = fitness_ops(1e-5, false);
    assert!(ops.convert_fitnesses_impl(0, &[]).is_empty());
    assert!(ops.convert_fitnesses_impl(3, &[]).is_empty());
}

fn affine_ops() -> AffineOps<
    impl Fn(&Mat, &f32) -> Mat,
    impl Fn(&Mat, &Mat) -> Mat,
    impl Fn(&f32, &usize) -> f32,
> {
    AffineOps {
        times: |p: &Mat, s: &f32| p.map(|v| v * s),
        minus: |a: &Mat, b: &Mat| a.zip(b, |x, y| x - y),
        factor: |std: &f32, n: &usize| -1.0 / (std * (*n as f32).sqrt()),
    }
}

#[test]
fn affine_gradients_by_hand() {
    let sums = [Mat::new(1, 2, &[10.0, 4.0]), Mat::new(1, 1, &[7.0])];
    let ones = [Mat::new(1, 2, &[3.0, -2.0])];
    // -(g - 2 o) / (0.5 * 4)
    let grads = combine_affine_grads(&affine_ops(), &sums, &ones, &2.0, &0.5, 16);
    assert_eq!(grads, vec![Mat::new(1, 2, &[-2.0, -4.0])]);
}

#[test]
fn inline_affine_matches_accumulated_two_phase() {
    let (lr, sigma, rank) = (0.01_f32, 0.5_f32, 2usize);
    let frozen = frozen_with(0, false, 0, rank, adamw_solver(lr));
    let p = Mat::new(2, 3, &[0.1, 0.2, 0.3, 0.4, 0.5, 0.6]);
    let raw = [1.0_f32, -0.5, 2.0, 0.5, -1.0, 1.5, 0.25, -0.75];
    let thread_ids: Vec<i32> = (0..8).collect();
    let cache = cache_of(&[[2, 3]], &[42], &[1], 8, rank);
    let conv = fitness_ops(1e-5, false).convert_fitnesses_impl(0, &raw);
    let ops = accumulate_ops(sigma, rank);
    let mut noiser_2p = noiser_with(sigma, &frozen, &[p.clone()]);
    let batch = Batch {
        shapes: &[[2, 3]],
        base_keys: &[42],
        es_classes: &[1],
        scores: &conv,
        thread_ids: &thread_ids,
        epoch: 0,
        noise_reuse: 0,
        rank,
        freeze_nonlora: false,
        chunk: 4,
        accumulate: 2,
        cores: 2,
        cache: Some(&cache),
    };
    let updated_2p =
        ops.accumulated_update_cached(&solver_ops(), &frozen, &mut noiser_2p, &[p.clone()], &batch);

    let mut noiser_inl = noiser_with(sigma, &frozen, &[p.clone()]);
    let ones = [1.0_f32; 8];
    let mut inline = batch;
    inline.scores = &raw;
    let grad_acc: Vec<Mat> = ops.sums(&inline);
    inline.scores = &ones;
    let ones_acc: Vec<Mat> = ops.sums(&inline);
    let mean = raw.iter().sum::<f32>() / 8.0;
    let var = raw.iter().map(|x| x * x).sum::<f32>() / 8.0 - mean * mean;
    let std = (var + 1e-5).sqrt();
    let grads = combine_affine_grads(&affine_ops(), &grad_acc, &ones_acc, &mean, &std, 8);
    let updated_inl =
        solver_ops().update(&frozen.solver, &[p.clone()], &grads, &mut noiser_inl.opt_state);
    assert!(all_near(&updated_2p[0].d, &updated_inl[0].d, 1e-4));
}

#[test]
fn eggroll_init_noiser_builds_frozen_and_noiser_params() {
    let p = Mat::new(1, 2, &[1.0, 2.0]);
    let (frozen, noiser) =
        init_noiser(&[p], 0.4_f32, 0, false, 0, 4, adamw_solver(0.01), &zeros_like);
    assert_eq!(frozen.rank, 4);
    assert_eq!(frozen.group_size, 0);
    assert_eq!(noiser.sigma, 0.4);
    assert_eq!(noiser.opt_state.moments.len(), 1);
}

#[test]
fn get_noisy_standard_adds_dense_noise_with_iterinfo() {
    let p = Mat::new(1, 2, &[1.0, 2.0]);
    let frozen = frozen_with(0, false, 0, 1, Solver::sgd(0.1));
    let id = noisy_standard(EggRoll.kind(), &frozen, 0.5, &p, 1, None);
    assert_eq!(id.d, vec![1.0, 2.0]);
    let frz = frozen_with(0, true, 0, 1, Solver::sgd(0.1));
    let id2 = noisy_standard(EggRoll.kind(), &frz, 0.5, &p, 1, Some(info(0, 1)));
    assert_eq!(id2.d, vec![1.0, 2.0]);
    let moved = noisy_standard(EggRoll.kind(), &frozen, 0.5, &p, 1, Some(info(0, 1)));
    assert_ne!(moved.d, vec![1.0, 2.0]);
}

#[test]
fn do_mm_adds_lora_noise_when_iterinfo_present() {
    let frozen = frozen_with(0, false, 0, 2, Solver::sgd(0.1));
    let p = Mat::new(1, 2, &[1.0, 2.0]);
    let x = Mat::new(1, 2, &[1.0, 2.0]);
    let base = do_mm(EggRoll.kind(), &frozen, 0.5, &p, 8, None, &x);
    assert_eq!(base.d, vec![5.0]);
    let noisy = do_mm(EggRoll.kind(), &frozen, 0.5, &p, 8, Some(info(0, 0)), &x);
    assert!(noisy.d[0] != 5.0);
}

// ---------------------------------------------------------------------------
// Paired sums
// ---------------------------------------------------------------------------

fn einsum_ops() -> EinsumOps<
    f32,
    impl Fn((f32, f32, f32)) -> f32,
    impl Fn((f32, f32, f32)) -> f32,
    impl Fn((f32, f32)) -> f32,
    impl Fn((f32, f32)) -> f32,
> {
    EinsumOps {
        zero: 0.0_f32,
        weight: |w: (f32, f32, f32)| w.0 * (w.1 + w.2),
        fma: |w: (f32, f32, f32)| w.0 + w.1 * w.2,
        add: |w: (f32, f32)| w.0 + w.1,
        add_double: |w: (f32, f32)| w.0 + 2.0 * w.1,
    }
}

#[test]
fn lora_einsum_pair_matches_plain_raw_and_ones() {
    let (half, r, a, b) = (2usize, 3usize, 2usize, 3usize);
    let a_half: Vec<f32> = (1..=12).map(|v| v as f32).collect();
    let b_half: Vec<f32> = (1..=18).map(|v| v as f32).collect();
    let scores = [0.5_f32, -1.0, 2.0, 0.25];
    // All samples: the second half has opposite signs.
    let mut exp_raw = vec![0.0_f32; a * b];
    let mut exp_ones = vec![0.0_f32; a * b];
    for n in 0..2 * half {
        let sign = if n < half { 1.0 } else { -1.0 };
        for k in 0..r {
            let row = n % half * r + k;
            for i in 0..a {
                for j in 0..b {
                    let v = sign * a_half[row * a + i] * (sign * b_half[row * b + j]);
                    exp_ones[i * b + j] += v;
                    exp_raw[i * b + j] += scores[n] * v;
                }
            }
        }
    }
    let input = EinsumInput {
        shape: EinsumShape::pitched(half, r, a, b, a, b),
        a_flat: &a_half,
        b_flat: &b_half,
        scores: &scores,
    };
    for slices in 1..5 {
        let mut raw = vec![0.0_f32; a * b];
        let mut ones = vec![0.0_f32; a * b];
        einsum_ops().einsum_pair_fused(&input, &mut raw, &mut ones, b, slices);
        assert!(all_near(&raw, &exp_raw, 1e-4), "{raw:?} {exp_raw:?}");
        assert!(all_near(&ones, &exp_ones, 1e-4), "{ones:?} {exp_ones:?}");
    }
    let (raw, ones) = cpu_ref(
        &input,
        0.0_f64,
        &|w: (f64, f32, f32, f32, f32)| w.0 + w.1 as f64 * (w.2 + w.3) as f64 * w.4 as f64,
        &|w: (f64, f32, f32)| w.0 + w.1 as f64 * w.2 as f64,
        &|x: f64| x as f32,
        &|x: f64| (2.0 * x) as f32,
    );
    assert!(all_near(&raw, &exp_raw, 1e-4) && all_near(&ones, &exp_ones, 1e-4));
}

// ---------------------------------------------------------------------------
// AltEggRoll
// ---------------------------------------------------------------------------

#[test]
fn simple_lora_update_matches_hand_computed_sign_version() {
    let (key, sigma, r) = (7u64, 0.5_f32, 1usize);
    let frozen = frozen_with(0, false, 0, r, Solver::sgd(0.1));
    let lv = normals(key, 0, 0, 4);
    let mut expected = [0.0_f32; 4];
    for i in 0..2 {
        for j in 0..2 {
            expected[i * 2 + j] = sigma * lv[2 + i].signum() * lv[j].signum();
        }
    }
    let got =
        plain_gradient(AltEggRoll.kind(), 1, &frozen, sigma, [2, 2], key, &[1.0], &[info(0, 0)]);
    assert!(all_near(&got.d, &expected, 1e-4), "got {got:?} exp {expected:?}");
}

#[test]
fn alt_lora_update_differs_from_eggroll_lora_update() {
    let frozen = frozen_with(0, false, 0, 2, Solver::sgd(0.1));
    let scores = [1.0_f32, 2.0];
    let infos = [info(1, 2)];
    let alt = plain_gradient(AltEggRoll.kind(), 1, &frozen, 0.4, [3, 2], 123, &scores, &infos);
    let egg = plain_gradient(EggRoll.kind(), 1, &frozen, 0.4, [3, 2], 123, &scores, &infos);
    assert!(alt.d.iter().zip(egg.d.iter()).any(|(x, y)| x != y));
}

#[test]
fn alteggroll_do_update_is_neg_grad_times_sqrt_n() {
    let (sigma, key) = (0.3_f32, 5u64);
    let frozen = frozen_with(0, false, 0, 1, Solver::sgd(0.1));
    let expected: Vec<f32> = normals(key, 0, 0, 2).iter().map(|v| -(sigma * v)).collect();
    let got = gradient(AltEggRoll.kind(), 0, &frozen, sigma, [2, 1], key, &[1.0], &[info(0, 0)]);
    assert!(all_near(&got.d, &expected, 1e-5), "got {got:?}");
}

fn no_noise_product(kind: NoiserKind, key: u64) {
    let frozen = frozen_with(0, false, 0, 1, Solver::sgd(0.1));
    let param = Mat::new(2, 3, &[1.0, 2.0, 3.0, 4.0, 5.0, 6.0]);
    let x = Mat::new(2, 3, &[1.0, 1.0, 1.0, 2.0, 2.0, 2.0]);
    let out = do_mm(kind, &frozen, 1.0, &param, key, None, &x);
    assert_eq!(out.d, vec![6.0, 15.0, 12.0, 30.0]);
}

#[test]
fn alteggroll_do_mm_no_noise_is_x_at_param_t() {
    no_noise_product(AltEggRoll.kind(), 1);
}

#[test]
fn do_mm_noised_is_base_plus_x_at_b_at_a_t() {
    let frozen = frozen_with(0, false, 0, 2, Solver::sgd(0.1));
    let param = Mat::new(1, 2, &[1.0, 2.0]);
    let x = Mat::new(1, 2, &[1.0, 2.0]);
    let base = x.matmul(&param.t());
    assert_eq!(base.d, vec![5.0]);
    let noisy = do_mm(AltEggRoll.kind(), &frozen, 0.5, &param, 8, Some(info(0, 0)), &x);
    let egg = do_mm(EggRoll.kind(), &frozen, 0.5, &param, 8, Some(info(0, 0)), &x);
    assert_eq!(noisy, egg);
    assert_ne!(noisy.d[0], 5.0);
}

#[test]
fn init_noiser_reuses_eggroll_signature() {
    let p = Mat::new(1, 2, &[1.0, 2.0]);
    let (frozen, noiser) =
        init_noiser(&[p], 0.4_f32, 0, false, 0, 4, adamw_solver(0.01), &zeros_like);
    assert_eq!(frozen.rank, 4);
    assert_eq!(frozen.group_size, 0);
    assert_eq!(noiser.sigma, 0.4);
    assert_eq!(noiser.opt_state.moments.len(), 1);
}

#[test]
fn alteggroll_same_seed_gives_same_noise() {
    let frozen = frozen_with(0, false, 0, 2, Solver::sgd(0.1));
    let p = Mat::new(2, 2, &[1.0, 2.0, 3.0, 4.0]);
    let a = do_mm(AltEggRoll.kind(), &frozen, 0.7, &p, 42, Some(info(1, 2)), &p);
    let b = do_mm(AltEggRoll.kind(), &frozen, 0.7, &p, 42, Some(info(1, 2)), &p);
    assert_eq!(a, b);
}

// ---------------------------------------------------------------------------
// EggRollBS
// ---------------------------------------------------------------------------

#[test]
fn nonlora_mask_zeroes_dirs_0_and_1() {
    let g = 4;
    let draw = |t: i32| dense(0.5, 9, info(0, t), 4, 0, mask(&info(0, t), g));
    assert!(draw(0).iter().all(|&v| v == 0.0));
    assert!(draw(1).iter().all(|&v| v == 0.0));
    assert!(draw(2).iter().any(|&v| v != 0.0));
    let (k6a, k6b, k7) = (draw(6), draw(6), draw(7));
    assert!(k6a.iter().any(|&v| v != 0.0));
    assert_eq!(k6a, k6b);
    assert!(k6a.iter().zip(k7.iter()).all(|(a, b)| near(*a, -*b, 1e-5)));
}

#[test]
fn lora_mask_zeroes_dirs_0_and_1() {
    let g = 3;
    let draw = |t: i32| lora(0.5, 4, 2, info(0, t), 2, 2, 0, mask(&info(0, t), g));
    let zero = draw(0);
    assert!(zero.a.iter().all(|&v| v == 0.0));
    assert!(zero.b.iter().all(|&v| v == 0.0));
    let two = draw(2);
    assert_eq!((two.a.len(), two.b.len()), (4, 4));
    assert!(two.a.iter().any(|&v| v != 0.0));
    assert!(two.b.iter().any(|&v| v != 0.0));
}

#[test]
fn masks_agree_with_counted_columns() {
    for g in 1..6 {
        let columns = column_mask(g as usize);
        for t in 0..g {
            assert_eq!(mask(&info(0, t), g), columns[t as usize]);
        }
    }
    assert!(!mask(&info(0, 5), 0));
    assert!(!mask(&info(0, -1), 4));
    assert!(NoiserKind::EggRoll.keep(&info(0, 0), 4));
    assert!(!NoiserKind::EggRollBS.keep(&info(0, 0), 4));
}

#[test]
fn convert_fitnesses_baseline_subtracts_and_zeroes_first_cols() {
    let out = fitness_ops(1e-8, true).convert_fitnesses(3, &[1.0_f32, 2.0, 5.0, 3.0, 4.0, 7.0]);
    assert_eq!(out.len(), 3);
    assert!(near(out[0], 0.0, 1e-6));
    assert!(near(out[1], 0.0, 1e-6));
    let spread = |row: [f32; 3]| {
        (row.iter().map(|x| x * x).sum::<f32>() / 3.0 - (row.iter().sum::<f32>() / 3.0).powi(2))
            .sqrt()
    };
    let z02 = (5.0 - 1.0) / (spread([1.0, 2.0, 5.0]) + 1e-8);
    let z12 = (7.0 - 3.0) / (spread([3.0, 4.0, 7.0]) + 1e-8);
    let expected = (z02 + z12) / 2.0;
    assert!(near(out[2], expected, 1e-4), "got {} exp {}", out[2], expected);
}

#[test]
fn trust_region_solver_clips_global_grad_norm() {
    let (max_norm, lr) = (1.0_f32, 0.1_f32);
    let solver = Solver::TrustRegion { max_norm, inner: Box::new(Solver::sgd(lr)) };
    let p = Mat::new(1, 2, &[0.0, 0.0]);
    let g = Mat::new(1, 2, &[100.0, 0.0]);
    let mut state = solver.init_state(&[p.clone()], &zeros_like);
    let new = solver_ops().update(&solver, &[p.clone()], &vec![g], &mut state);
    let clipped = p.zip(&new[0], |x, y| (x - y) * (1.0 / lr));
    assert!(near(clipped.norm(), max_norm, 1e-4));
    assert!(clipped.d[0] > 0.0 && near(clipped.d[1], 0.0, 1e-5));
}

#[test]
fn do_updates_runs_and_changes_params() {
    let solver = Solver::TrustRegion { max_norm: 1.0, inner: Box::new(Solver::sgd(0.1)) };
    let frozen = frozen_with(3, false, 0, 2, solver);
    let p = Mat::new(2, 2, &[1.0, 2.0, 3.0, 4.0]);
    let mut noiser = noiser_with(0.5, &frozen, &[p.clone()]);
    let infos = [info(0, 0), info(0, 1), info(0, 2)];
    let updated = updates(
        EggRollBS.kind(), &frozen, &mut noiser, &[p.clone()], &[7], &[0.5, 0.5, 0.5], &infos, &[1],
    );
    assert!(updated[0].d.iter().all(|v| v.is_finite()));
    assert!(updated[0].d.iter().zip(p.d.iter()).any(|(u, q)| !near(*u, *q, 1e-6)));
}

#[test]
fn init_noiser_wraps_in_trust_region() {
    let p = Mat::new(1, 2, &[1.0, 2.0]);
    let (frozen, noiser) =
        init_clipped_noiser(&[p], 0.4_f32, 3, false, 0, 2, 0.9, adam_solver(0.01), &zeros_like);
    assert!(matches!(frozen.solver, Solver::TrustRegion { max_norm: 0.9, .. }));
    assert_eq!(frozen.group_size, 3);
    assert_eq!(frozen.rank, 2);
    assert_eq!(noiser.sigma, 0.4);
    assert_eq!(noiser.opt_state.moments.len(), 1);
}

#[test]
fn eggroll_bs_same_seed_gives_same_noise() {
    let solver = Solver::TrustRegion { max_norm: 1.0, inner: Box::new(Solver::sgd(0.1)) };
    let frozen = frozen_with(3, false, 0, 2, solver);
    let p = Mat::new(2, 2, &[1.0, 2.0, 3.0, 4.0]);
    let a = noisy_standard(EggRollBS.kind(), &frozen, 0.7, &p, 42, Some(info(1, 2)));
    let b = noisy_standard(EggRollBS.kind(), &frozen, 0.7, &p, 42, Some(info(1, 2)));
    assert_eq!(a, b);
}

// ---------------------------------------------------------------------------
// OpenES
// ---------------------------------------------------------------------------

#[test]
fn open_es_do_mm_no_noise_is_x_at_param_t() {
    no_noise_product(OpenES.kind(), 7);
}

#[test]
fn do_mm_noised_is_x_at_param_plus_nonlora() {
    let (sigma, key) = (0.5_f32, 11u64);
    let frozen = frozen_with(0, false, 0, 1, Solver::sgd(0.1));
    let param = Mat::new(1, 3, &[1.0, 2.0, 3.0]);
    let noisy = do_mm(OpenES.kind(), &frozen, sigma, &param, key, Some(info(0, 0)), &param);
    let nv = normals(key, 0, 0, 3);
    let expected: f32 = (0..3).map(|i| param.d[i] * (param.d[i] + sigma * nv[i])).sum();
    assert!(near(noisy.d[0], expected, 1e-4), "got {:?} exp {expected}", noisy.d[0]);
}

#[test]
fn get_noisy_standard_no_iterinfo_or_frozen_is_identity() {
    let p = Mat::new(1, 2, &[1.0, 2.0]);
    let frozen = frozen_with(0, false, 0, 1, Solver::sgd(0.1));
    assert_eq!(noisy_standard(OpenES.kind(), &frozen, 0.5, &p, 1, None).d, vec![1.0, 2.0]);
    let frz = frozen_with(0, true, 0, 1, Solver::sgd(0.1));
    let id2 = noisy_standard(OpenES.kind(), &frz, 0.5, &p, 1, Some(info(0, 1)));
    assert_eq!(id2.d, vec![1.0, 2.0]);
}

#[test]
fn get_noisy_standard_adds_dense_noise_when_not_frozen() {
    let (sigma, key) = (0.4_f32, 3u64);
    let frozen = frozen_with(0, false, 0, 1, Solver::sgd(0.1));
    let p = Mat::new(1, 2, &[1.0, 2.0]);
    let out = noisy_standard(OpenES.kind(), &frozen, sigma, &p, key, Some(info(0, 0)));
    let nv = normals(key, 0, 0, 2);
    let expected: Vec<f32> = p.d.iter().zip(nv.iter()).map(|(p, n)| p + sigma * n).collect();
    assert!(all_near(&out.d, &expected, 1e-4), "{out:?} exp {expected:?}");
}

#[test]
fn open_es_do_update_is_neg_grad_times_sqrt_n() {
    let (sigma, key) = (0.3_f32, 5u64);
    let frozen = frozen_with(0, false, 0, 1, Solver::sgd(0.1));
    let expected: Vec<f32> = normals(key, 0, 0, 2).iter().map(|v| -(sigma * v)).collect();
    for class in [0, 1] {
        let got = gradient(OpenES.kind(), class, &frozen, sigma, [2, 1], key, &[1.0], &[info(0, 0)]);
        assert!(all_near(&got.d, &expected, 1e-5), "got {got:?}");
    }
}

#[test]
fn do_updates_sgd_pipeline_matches_formula() {
    sgd_pipeline(OpenES.kind());
}

#[test]
fn open_es_init_noiser_builds_frozen_and_noiser_params() {
    let p = Mat::new(1, 2, &[1.0, 2.0]);
    let (frozen, noiser) =
        init_noiser(&[p], 0.4_f32, 0, false, 0, 4, adamw_solver(0.01), &zeros_like);
    assert_eq!(frozen.rank, 4);
    assert_eq!(frozen.group_size, 0);
    assert_eq!(noiser.sigma, 0.4);
    assert_eq!(noiser.opt_state.moments.len(), 1);
}

#[test]
fn open_es_same_seed_gives_same_noise() {
    let frozen = frozen_with(0, false, 0, 1, Solver::sgd(0.1));
    let p = Mat::new(2, 3, &[1.0, 2.0, 3.0, 4.0, 5.0, 6.0]);
    let a = noisy_standard(OpenES.kind(), &frozen, 0.7, &p, 42, Some(info(1, 2)));
    let b = noisy_standard(OpenES.kind(), &frozen, 0.7, &p, 42, Some(info(1, 2)));
    assert_eq!(a, b);
}

// ---------------------------------------------------------------------------
// Sparse
// ---------------------------------------------------------------------------

fn sparse(sigma: f32, key: u64, i: IterInfo, shape: [usize; 2]) -> SparseNoise<f32> {
    let ops = noise_ops(sigma, 1);
    get_sparse_update_params(key, &i, shape[0], shape[1], 0, &ops.normal, &ops.scaled)
}

#[test]
fn get_sparse_update_params_shapes_and_bounds() {
    let shape = [3usize, 5usize];
    let p = sparse(0.5, 42, info(1, 2), shape);
    let k = 5usize;
    assert_eq!(p.values.len(), k);
    assert_eq!(p.idxa.len(), k);
    assert_eq!(p.idxb.len(), k);
    assert!(p.idxa.iter().all(|&i| (0..shape[0] as i32).contains(&i)));
    assert!(p.idxb.iter().all(|&i| (0..shape[1] as i32).contains(&i)));
    for i in 0..k {
        let idxjoint = p.idxa[i] * shape[1] as i32 + p.idxb[i];
        assert!(idxjoint >= 0 && idxjoint < (shape[0] * shape[1]) as i32);
    }
}

#[test]
fn get_sparse_update_params_is_deterministic() {
    let one = sparse(0.7, 9, info(3, 0), [2, 4]);
    let two = sparse(0.7, 9, info(3, 0), [2, 4]);
    assert_eq!(one.values, two.values);
    assert_eq!(one.idxa, two.idxa);
    assert_eq!(one.idxb, two.idxb);
}

#[test]
fn sparse_indices_are_draws_times_elements() {
    let p = sparse(0.5, 42, info(0, 0), [3, 5]);
    let mut stream = DeterministicNoise::new(noise_seed(42, 0, 0));
    for i in 0..5 {
        let joint = (unit(stream.next_unit()) * 15.0).floor() as i32;
        assert_eq!((p.idxa[i], p.idxb[i]), (joint / 5, joint % 5));
    }
    assert!(sparse(0.5, 1, info(0, 0), [0, 0]).values.is_empty());
    // In large matrices the product is rounded before it is rounded down.
    let (a, b) = (4099usize, 5003usize);
    let p = sparse(0.5, 42, info(0, 0), [a, b]);
    let mut stream = DeterministicNoise::new(noise_seed(42, 0, 0));
    let mut moved = 0;
    for i in 0..b {
        let u = stream.next_unit();
        let joint = (unit(u) * (a * b) as f32).floor() as i32;
        assert_eq!((p.idxa[i], p.idxb[i]), (joint / b as i32, joint % b as i32));
        assert!((p.idxa[i] as usize) < a && (p.idxb[i] as usize) < b);
        moved += (joint as u64 != u as u64 * (a * b) as u64 >> 24) as usize;
    }
    assert!(moved > 0);
}

#[test]
fn numbers_are_rounded_to_single_precision() {
    let mut stream = DeterministicNoise::new(7);
    for shift in 1..64 {
        for _ in 0..200 {
            let x = stream.next_u64() >> shift;
            assert_eq!(round_single(x) as u128, x as f32 as u128);
        }
    }
    // Halfway between two numbers the even one is taken.
    for (x, r) in [
        (0, 0),
        ((1 << 24) - 1, (1 << 24) - 1),
        ((1 << 24) + 1, 1 << 24),
        ((1 << 24) + 3, (1 << 24) + 4),
        ((1 << 25) - 1, 1 << 25),
    ] {
        assert_eq!(round_single(x), r);
        assert_eq!(x as f32 as u64, r);
    }
}

#[test]
fn coordinates_may_repeat() {
    let p = SparseNoise { values: vec![1, 10, 100], idxa: vec![0, 1, 0], idxb: vec![2, 0, 2] };
    assert_eq!(sparse_matrix(&p, 2, 3, 0, &|v: (i32, i32)| v.0 + v.1), vec![0, 0, 101, 10, 0, 0]);
    let mut base = vec![1000, 2000, 3000, 4000];
    let x = [1, 2, 3, 4, 5, 6];
    scatter_add(&mut base, &x, &p, 3, 2, &|v: (i32, i32, i32)| v.0 + v.1 * v.2);
    assert_eq!(base, vec![1303, 2010, 3606, 4040]);
}

#[test]
fn sparse_do_mm_no_noise_is_x_at_param_t() {
    no_noise_product(Sparse.kind(), 7);
}

#[test]
fn do_mm_noised_matches_scatter_add_semantics() {
    let (sigma, key) = (0.5_f32, 5u64);
    let frozen = frozen_with(0, false, 0, 1, Solver::sgd(0.1));
    let param = Mat::new(2, 2, &[1.0, 0.0, 0.0, 1.0]);
    let x = Mat::new(3, 2, &[1.0, 10.0, 2.0, 20.0, 30.0, 3.0]);
    let p = sparse(sigma, key, info(0, 0), [2, 2]);
    let mut expected = x.d.clone();
    for j in 0..3 {
        for i in 0..2 {
            expected[j * 2 + p.idxa[i] as usize] += x.d[j * 2 + p.idxb[i] as usize] * p.values[i];
        }
    }
    let got = do_mm(Sparse.kind(), &frozen, sigma, &param, key, Some(info(0, 0)), &x);
    assert!(all_near(&got.d, &expected, 1e-4), "got {got:?} exp {expected:?}");
}

#[test]
fn simple_sparse_update_matches_hand_computed() {
    let (sigma, key) = (0.4_f32, 8u64);
    let shape = [2usize, 3usize];
    let infos = [info(0, 0), info(0, 1)];
    let scores = [1.0_f32, 2.0];
    let frozen = frozen_with(0, false, 0, 1, Solver::sgd(0.1));
    let g = plain_gradient(Sparse.kind(), 1, &frozen, sigma, shape, key, &scores, &infos);
    let q = 3.0 / 6.0;
    let mut acc = [0.0_f32; 6];
    for j in 0..2 {
        let p = sparse(sigma, key, infos[j], shape);
        for i in 0..3 {
            acc[p.idxa[i] as usize * shape[1] + p.idxb[i] as usize] += scores[j] * p.values[i];
        }
    }
    let expected: Vec<f32> = acc.iter().map(|v| v * q / 2.0).collect();
    assert!(all_near(&g.d, &expected, 1e-4), "got {g:?} exp {expected:?}");
}

#[test]
fn sparse_do_update_is_neg_grad_times_sqrt_n() {
    let frozen = frozen_with(0, false, 0, 1, Solver::sgd(0.1));
    let p = sparse(0.3, 4, info(0, 0), [2, 2]);
    let expected: Vec<f32> = dense_form(&p, [2, 2]).d.iter().map(|v| -(v * 0.5)).collect();
    let got = gradient(Sparse.kind(), 1, &frozen, 0.3, [2, 2], 4, &[1.0], &[info(0, 0)]);
    assert!(all_near(&got.d, &expected, 1e-5), "got {got:?} exp {expected:?}");
}

#[test]
fn noise_that_cannot_be_drawn_is_told() {
    assert!(can_draw(NoiseForm::Zero, [usize::MAX, 2], 1));
    assert!(!can_draw(NoiseForm::Dense, [usize::MAX, 2], 1));
    assert!(can_draw(NoiseForm::Dense, [2, 3], 1));
    assert!(can_draw(NoiseForm::Lora, [2, 3], 4));
    assert!(!can_draw(NoiseForm::Lora, [2, 3], usize::MAX));
    assert!(!can_draw(NoiseForm::Lora, [usize::MAX, 1], 1));
    assert!(can_draw(NoiseForm::Sparse, [2, 3], 1) && can_draw(NoiseForm::Sparse, [0, 0], 1));
    assert!(!can_draw(NoiseForm::Sparse, [2, 0], 1));
    assert!(!can_draw(NoiseForm::Sparse, [1 << 16, 1 << 16], 1));
    assert!(can_reuse(&info(i32::MIN, 0), 1) && !can_reuse(&info(i32::MIN, 0), -1));
}

#[test]
fn batches_are_checked() {
    let thread_ids: Vec<i32> = (0..4).collect();
    let cache = cache_of(&[[2, 3]], &[42], &[1], 4, 2);
    let mut batch = Batch {
        shapes: &[[2, 3]],
        base_keys: &[42],
        es_classes: &[1],
        scores: &CONV,
        thread_ids: &thread_ids,
        epoch: 3,
        noise_reuse: 0,
        rank: 2,
        freeze_nonlora: false,
        chunk: 2,
        accumulate: 2,
        cores: 2,
        cache: Some(&cache),
    };
    assert!(batch.is_valid());
    batch.accumulate = 3;
    assert!(!batch.is_valid());
    batch.accumulate = usize::MAX;
    assert!(!batch.is_valid());
    batch.accumulate = 2;
    batch.cores = 0;
    assert!(!batch.is_valid());
    batch.cores = 1;
    batch.shapes = &[[2, 3], [usize::MAX, 2]];
    batch.base_keys = &[42, 7];
    batch.es_classes = &[1, 0];
    assert!(!batch.is_valid());
    batch.freeze_nonlora = true;
    assert!(batch.is_valid());
    // The cache has no noise for the second parameter.
    batch.shapes = &[[2, 3], [2, 3]];
    batch.es_classes = &[1, 1];
    assert!(!batch.is_valid());
    batch.cache = None;
    assert!(batch.is_valid());
}

#[test]
fn only_sparse_noise_is_weighed_by_its_share() {
    let frozen = frozen_with(0, false, 0, 1, Solver::sgd(0.1));
    let dense_part = dense(0.3, 4, info(0, 0), 6, 0, true);
    let got = gradient(Sparse.kind(), 0, &frozen, 0.3, [2, 3], 4, &[1.0], &[info(0, 0)]);
    let expected: Vec<f32> = dense_part.iter().map(|v| -v).collect();
    assert!(all_near(&got.d, &expected, 1e-6), "got {got:?} exp {expected:?}");
}

#[test]
fn do_updates_sgd_sparse_pipeline_smoke() {
    let frozen = frozen_with(0, false, 0, 1, Solver::sgd(0.1));
    let mut noiser = noiser_with(0.5, &frozen, &[]);
    let p = Mat::new(2, 2, &[0.5, -1.0, 2.0, 0.0]);
    let infos = [info(0, 0), info(0, 1)];
    let updated =
        updates(Sparse.kind(), &frozen, &mut noiser, &[p], &[22], &[1.0, -1.0], &infos, &[1]);
    assert!(updated[0].d.iter().all(|v| v.is_finite()));
}

#[test]
fn get_noisy_standard_identity_when_frozen_or_no_iter() {
    let p = Mat::new(1, 2, &[1.0, 2.0]);
    let frozen = frozen_with(0, true, 0, 1, Solver::sgd(0.1));
    assert_eq!(noisy_standard(Sparse.kind(), &frozen, 0.5, &p, 1, None).d, vec![1.0, 2.0]);
    let id2 = noisy_standard(Sparse.kind(), &frozen, 0.5, &p, 1, Some(info(0, 1)));
    assert_eq!(id2.d, vec![1.0, 2.0]);
}

#[test]
fn sparse_init_noiser_builds_frozen_and_noiser_params() {
    let p = Mat::new(1, 2, &[1.0, 2.0]);
    let (frozen, noiser) =
        init_noiser(&[p], 0.4_f32, 0, false, 0, 2, adamw_solver(0.01), &zeros_like);
    assert_eq!(frozen.rank, 2);
    assert_eq!(noiser.sigma, 0.4);
    assert_eq!(noiser.opt_state.moments.len(), 1);
}

#[test]
fn same_seed_gives_same_sparse_result() {
    let frozen = frozen_with(0, false, 0, 1, Solver::sgd(0.1));
    let p = Mat::new(2, 2, &[1.0, 2.0, 3.0, 4.0]);
    let a = do_mm(Sparse.kind(), &frozen, 0.7, &p, 42, Some(info(1, 2)), &p);
    let b = do_mm(Sparse.kind(), &frozen, 0.7, &p, 42, Some(info(1, 2)), &p);
    assert_eq!(a, b);
}

// ---------------------------------------------------------------------------
// Decisions and the optimizer
// ---------------------------------------------------------------------------

#[test]
fn forms_of_noise() {
    assert_eq!(NoiserKind::EggRoll.product_noise(true), NoiseForm::Lora);
    assert_eq!(NoiserKind::OpenES.product_noise(true), NoiseForm::Dense);
    assert_eq!(NoiserKind::Sparse.product_noise(true), NoiseForm::Sparse);
    assert_eq!(NoiserKind::Sparse.product_noise(false), NoiseForm::Zero);
    assert_eq!(NoiserKind::EggRollBS.update_noise(0, true), NoiseForm::Zero);
    assert_eq!(NoiserKind::EggRollBS.update_noise(1, true), NoiseForm::Lora);
    assert_eq!(NoiserKind::OpenES.update_noise(1, true), NoiseForm::Zero);
    assert_eq!(NoiserKind::AltEggRoll.update_noise(2, false), NoiseForm::Zero);
    assert_eq!(NoiserKind::Base.update_noise(1, false), NoiseForm::Zero);
    assert_eq!(NoiserKind::Sparse.standard_noise(true, false), NoiseForm::Dense);
}

#[test]
fn frozen_and_excluded_parameters_stay() {
    let frozen = frozen_with(0, true, 0, 1, Solver::sgd(0.1));
    let p = Mat::new(1, 2, &[1.0, -1.0]);
    for class in [0, 2, 3] {
        let mut noiser = noiser_with(0.5, &frozen, &[]);
        let updated = updates(
            EggRoll.kind(), &frozen, &mut noiser, &[p.clone()], &[1], &[1.0], &[info(0, 0)],
            &[class],
        );
        assert_eq!(updated[0].d, p.d);
    }
    let mut noiser = noiser_with(0.5, &frozen, &[]);
    assert!(updates(EggRoll.kind(), &frozen, &mut noiser, &[], &[], &[], &[], &[]).is_empty());
}

#[test]
fn adam_steps_match_their_formula() {
    let p = Mat::new(1, 1, &[2.0]);
    let g = Mat::new(1, 1, &[0.5]);
    for (solver, wd) in [(adam_solver(0.1), 0.0_f32), (adamw_solver(0.1), 1e-4)] {
        let mut state = solver.init_state(&[p.clone()], &zeros_like);
        let out = solver_ops().update(&solver, &[p.clone()], &vec![g.clone()], &mut state);
        // The first step moves by the learning rate.
        let expected = 2.0 - 0.1 * 0.5 / (0.5 + 1e-8) + 2.0 * wd;
        assert!(near(out[0].d[0], expected, 1e-5));
        assert_eq!(state.step, 1);
        assert!(near(state.moments[0].m.d[0], 0.05, 1e-6));
        assert!(near(state.moments[0].v.d[0], 0.00025, 1e-6));
    }
}

#[test]
fn sgd_keeps_no_state_and_copies_agree() {
    let solver = Solver::sgd(0.5_f32);
    let mut state: OptimizerState<Mat> = solver.init_state(&[Mat::zeros(1, 1)], &zeros_like);
    assert!(state.moments.is_empty());
    let out = solver_ops().update(
        &solver.duplicate(),
        &[Mat::new(1, 1, &[1.0]), Mat::new(1, 1, &[5.0])],
        &vec![Mat::new(1, 1, &[2.0])],
        &mut state,
    );
    assert_eq!(out, vec![Mat::new(1, 1, &[0.0])]);
    assert_eq!(state.step, 0);
    let moments = MomentState { m: 1, v: 2 };
    assert_eq!((moments.m, moments.v), (1, 2));
}
