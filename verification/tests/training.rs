use hyperscalees::config::{
    find_setting, parse_bench_args, parse_list, BenchConfig, Config, Program, Reward, Setting,
};
use hyperscalees::einsum::{
    count_mismatches, default_pitch, fill_rng, launch_grid, EinsumInput, EinsumOps, EinsumShape,
};
use hyperscalees::einsum_check::{CheckSizes, EinsumCheck};
use hyperscalees::accumulate::AccumulateOps;
use hyperscalees::epoch::{ChunkRange, ChunkSums, EpochOps};
use hyperscalees::equivalence::{Comparison, EquivalenceOps};
use hyperscalees::fitness::hits;
use hyperscalees::launch::{
    einsum_rows, frame_total, gemm_atb_sizes, grid_size, next_seeds, noise_threads,
    nul_terminated, poisson_total, GemmSizes, LaunchError, ROWS_PER_SLICE,
};
use hyperscalees::noise::IterInfo;
use hyperscalees::noiser::{FrozenNoiserParams, Noise, NoiseOps, NoiserParams};
use hyperscalees::prng::next_xorshift64;
use hyperscalees::smoke::SmokeOps;
use hyperscalees::solver::{AdamRule, OptimizerState, Solver, SolverOps};
use hyperscalees::split::slice_bounds;
use hyperscalees::text::{
    chars_of, decimal_string, find_from, parse_i32, parse_unsigned, parse_usize, same_text,
    split_pieces, split_words, string_of, trim, NumberFault,
};
use hyperscalees::train::{
    base_keys, chunk_size, epoch_seed, evaluation_seed, is_due, is_logged, judge, key_of_dims,
    patch_images, patch_pixel, position_of_dims, shuffled_indices, synthetic_data,
    synthetic_draws, verify_plan, ChunkError, Verdict, IN_DIM, KEY_MUL, NOISE_SHARE,
    PIXEL_ONE,
};
use hyperscalees::update::{AffineOps, GradientOps};

fn args(list: &[&str]) -> Vec<String> {
    list.iter().map(|s| s.to_string()).collect()
}

// ---------------------------------------------------------------------------
// Keys, seeds, shuffles
// ---------------------------------------------------------------------------

#[test]
fn keys_are_multiples() {
    let keys = base_keys(6);
    for (i, k) in keys.iter().enumerate() {
        assert_eq!(*k, (i as u64 + 1).wrapping_mul(0x9E37_79B9_7F4A_7C15));
    }
    let mut sorted = keys.clone();
    sorted.sort();
    sorted.dedup();
    assert_eq!(sorted.len(), 6);
    assert!(base_keys(0).is_empty());
}

#[test]
fn keys_are_found_by_dimensions() {
    let pairs = [([3, 2], 10), ([2, 3], 20), ([3, 2], 30)];
    assert_eq!(key_of_dims(&pairs, [3, 2]), 10);
    assert_eq!(key_of_dims(&pairs, [2, 3]), 20);
    assert_eq!(key_of_dims(&pairs, [9, 9]), 0);
    assert_eq!(position_of_dims(&pairs, [2, 3]), Some(1));
    assert_eq!(position_of_dims(&pairs, [9, 9]), None);
}

#[test]
fn seeds_of_epochs_differ() {
    assert_eq!(epoch_seed(7, 0), 7 ^ KEY_MUL);
    assert_eq!(epoch_seed(7, 4), 7 ^ KEY_MUL.wrapping_mul(5));
    assert_ne!(epoch_seed(7, 0), epoch_seed(7, 1));
    assert_eq!(evaluation_seed(3), KEY_MUL.wrapping_mul(3));
}

#[test]
fn shuffles_are_permutations() {
    let n = 50;
    let all = shuffled_indices(n, n, 12);
    let mut sorted = all.clone();
    sorted.sort();
    assert_eq!(sorted, (0..n).collect::<Vec<usize>>());
    assert_ne!(all, sorted);
    assert_eq!(shuffled_indices(n, 8, 12), all[..8]);
    assert_eq!(shuffled_indices(n, n, 12), all);
    assert_ne!(shuffled_indices(n, n, 15), all);
    // Seeds that differ in their lowest bit alone give one shuffle.
    assert_eq!(shuffled_indices(n, n, 13), all);
    assert!(shuffled_indices(0, 0, 1).is_empty());
}

#[test]
fn shuffles_follow_their_generator() {
    let (n, seed) = (10_usize, 5_u64);
    let mut state: u64 = (seed ^ 0x9E37_79B9_7F4A_7C15) | 1;
    let mut expected: Vec<usize> = (0..n).collect();
    for i in 0..n {
        state ^= state << 13;
        state ^= state >> 7;
        state ^= state << 17;
        let draw = state.wrapping_mul(0x2545_F491_4F6C_DD1D);
        expected.swap(i, i + (draw as usize % (n - i)));
    }
    assert_eq!(shuffled_indices(n, n, seed), expected);
}

// ---------------------------------------------------------------------------
// Plans
// ---------------------------------------------------------------------------

#[test]
fn batches_are_cut_into_chunks() {
    assert_eq!(chunk_size(60000, 5, false), Ok(12000));
    assert_eq!(chunk_size(60000, 0, false), Err(ChunkError::NotDivisible));
    assert_eq!(chunk_size(60000, 7, false), Err(ChunkError::NotDivisible));
    assert_eq!(chunk_size(15, 5, true), Err(ChunkError::OddChunk));
    assert_eq!(chunk_size(15, 5, false), Ok(3));
    assert_eq!(chunk_size(20, 5, true), Ok(4));
}

#[test]
fn equivalence_checks_are_planned() {
    assert_eq!(verify_plan(60000, 5, 10000), Some((1020, 5, 204)));
    assert_eq!(verify_plan(512, 4, 10000), Some((512, 4, 128)));
    assert_eq!(verify_plan(3, 5, 10000), Some((5, 5, 1)));
    assert_eq!(verify_plan(60000, 0, 10000), Some((1024, 1, 1024)));
    assert_eq!(verify_plan(60000, 5, 1000), None);
    assert_eq!(verify_plan(0, 5, 1000), None);
}

#[test]
fn equivalence_checks_are_judged() {
    assert_eq!(judge(false, false, true), Verdict::Pass);
    assert_eq!(judge(true, true, true), Verdict::ForwardDiffers);
    assert_eq!(judge(false, true, true), Verdict::UpdateDiffers);
    assert_eq!(judge(false, false, false), Verdict::ControlAgrees);
}

#[test]
fn epochs_are_validated_and_logged() {
    assert!(is_due(0, 50) && is_due(100, 50) && !is_due(99, 50));
    assert!(is_logged(20, 10, 35) && is_logged(34, 10, 35) && !is_logged(33, 10, 35));
}

#[test]
fn ranges_are_cut_into_slices() {
    let bounds: Vec<(usize, usize)> = (0..4).map(|q| slice_bounds(10, 4, q)).collect();
    assert_eq!(bounds, vec![(0, 3), (3, 6), (6, 9), (9, 10)]);
}

#[test]
fn images_are_cut_into_patches() {
    let image: Vec<usize> = (0..IN_DIM).collect();
    let patched = patch_images(&image, 1);
    // The first patch holds the first seven pixels of the first seven rows.
    assert_eq!(patched[..7], [0, 1, 2, 3, 4, 5, 6]);
    assert_eq!(patched[7], 28);
    assert_eq!(patched[49], 7);
    assert_eq!(patched[4 * 49], 7 * 28);
    assert_eq!(patched[783], 783);
    let mut sorted = patched.clone();
    sorted.sort();
    assert_eq!(sorted, image);
    for q in [0, 8, 49, 783] {
        assert_eq!(patch_pixel(q), patched[q]);
    }
    let two: Vec<usize> = (0..2 * IN_DIM).collect();
    assert_eq!(patch_images(&two, 2)[IN_DIM + 7], IN_DIM + 28);
}

#[test]
fn synthetic_data_is_drawn_in_order() {
    let d = synthetic_draws(3, 2, 4);
    let mut state = 0x1234_5678_9ABC_DEF0_u64;
    let mut next = || {
        state = next_xorshift64(state);
        state
    };
    let proto: Vec<u32> = (0..8).map(|_| (next() >> 40) as u32).collect();
    assert_eq!(d.proto, proto);
    for i in 0..3 {
        assert_eq!(d.drawn[i], (next() % 2) as i32);
        let noise: Vec<u32> = (0..4).map(|_| (next() >> 40) as u32).collect();
        assert_eq!(d.noise[4 * i..4 * i + 4], noise);
    }
    assert_eq!((d.drawn.len(), d.noise.len()), (3, 12));
}

#[test]
fn synthetic_labels_are_the_nearest_prototypes() {
    let (n, classes, dim) = (40usize, 5usize, 3usize);
    let draws = synthetic_draws(n, classes, dim);
    let data = synthetic_data(n, classes, dim);
    assert_eq!((data.images.len(), data.labels.len()), (n * dim, n));
    let mut moved = 0;
    for i in 0..n {
        let from = draws.drawn[i] as usize;
        for d in 0..dim {
            let unit = |n: u32| n as f32 / (1u64 << 24) as f32;
            let noise = unit(draws.noise[i * dim + d]) * 0.3_f32;
            let pixel = (unit(draws.proto[from * dim + d]) + noise).min(1.0);
            assert_eq!(data.images[i * dim + d] as f64 / PIXEL_ONE as f64, pixel as f64);
        }
        let alike = |c: usize| -> u128 {
            (0..dim)
                .map(|d| data.images[i * dim + d] as u128 * draws.proto[c * dim + d] as u128)
                .sum()
        };
        let label = data.labels[i] as usize;
        assert!((0..classes).all(|c| alike(c) <= alike(label)));
        assert!((0..label).all(|c| alike(c) < alike(label)));
        moved += (label != from) as usize;
    }
    // Few pixels do not tell the classes apart.
    assert!(moved > 0);
    assert_eq!(PIXEL_ONE, 1 << 49);
    assert_eq!(NOISE_SHARE as f64 / (1 << 25) as f64, 0.3_f32 as f64);
}

#[test]
fn right_answers_are_hits() {
    assert_eq!(hits(&[1, 2, 3], &[1, 0, 3]), vec![true, false, true]);
}

// ---------------------------------------------------------------------------
// Command lines
// ---------------------------------------------------------------------------

#[test]
fn defaults_of_the_programs() {
    let a = Config::defaults(Program::Accumulate);
    assert_eq!((a.batch, a.accumulate, a.rank, a.t), (60000, 5, 64, 8));
    assert_eq!((a.group_size, a.noise_reuse, a.num_epochs, a.seed), (0, 0, 3000, 0));
    assert_eq!(a.hidden, vec![128, 128]);
    assert_eq!((a.validate_every, a.val_batch, a.log_every), (50, 10000, 10));
    assert!(a.mnist_dir.is_none() && a.csv_out.is_none() && !a.verify);
    assert!(a.sigma.is_empty() && a.lr.is_empty());
    assert_eq!(a.reward, Reward::Loglik);
    let t = Config::defaults(Program::Transformer);
    assert_eq!((t.batch, t.accumulate, t.rank, t.t), (2048, 4, 16, 8));
    assert_eq!((t.num_epochs, t.d_model, t.num_heads, t.num_blocks), (300, 32, 4, 2));
    assert_eq!((t.validate_every, t.val_batch, t.log_every), (25, 1000, 5));
}

#[test]
fn command_lines_are_read() {
    let line = args(&[
        "--batch", "100", "--accumulate", "4", "--rank", "3", "--T", "2", "--sigma", "0.5",
        "--sigma", "x", "--lr", "0.1", "--reward", "binary", "--group-size", "-7",
        "--noise-reuse", "9", "--num-epochs", "11", "--seed", "18446744073709551615", "--hidden",
        " 5, x,6 ", "--mnist-dir", "data", "--validate-every", "1", "--val-batch", "12",
        "--log-every", "13", "--csv-out", "out.csv", "--verify",
    ]);
    let c = Config::parse_args(Program::Accumulate, &line);
    assert_eq!((c.batch, c.accumulate, c.rank, c.t), (100, 4, 3, 2));
    assert_eq!(c.sigma, args(&["0.5", "x"]));
    assert_eq!(c.lr, args(&["0.1"]));
    assert_eq!((c.group_size, c.noise_reuse, c.num_epochs), (-7, 9, 11));
    assert_eq!(c.seed, u64::MAX);
    assert_eq!(c.hidden, vec![5, 6]);
    assert_eq!(c.mnist_dir.as_deref(), Some("data"));
    assert_eq!((c.validate_every, c.val_batch, c.log_every), (1, 12, 13));
    assert_eq!(c.csv_out.as_deref(), Some("out.csv"));
    assert!(c.verify);
    assert_eq!(c.reward, Reward::Binary);
    // The transformer has other options.
    let line = args(&["--d-model", "96", "--num-heads", "6", "--num-blocks", "3", "--verify"]);
    let t = Config::parse_args(Program::Transformer, &line);
    assert_eq!((t.d_model, t.num_heads, t.num_blocks, t.verify), (96, 6, 3, false));
    assert_eq!(find_setting(Program::Transformer, "--hidden"), None);
    assert_eq!(find_setting(Program::Accumulate, "--hidden"), Some(Setting::Hidden));
}

#[test]
fn bad_values_and_unknown_arguments_change_nothing() {
    let line = args(&["junk", "--batch", "-1", "--nope", "--rank", "2x", "--reward", "other"]);
    let c = Config::parse_args(Program::Accumulate, &line);
    assert_eq!((c.batch, c.rank, c.reward), (60000, 64, Reward::Loglik));
    // An option without a value gets an empty one.
    let c = Config::parse_args(Program::Accumulate, &args(&["--batch"]));
    assert_eq!(c.batch, 60000);
    let c = Config::parse_args(Program::Accumulate, &args(&["--mnist-dir"]));
    assert_eq!(c.mnist_dir.as_deref(), Some(""));
    // The value of an option is skipped, even if it looks like one.
    let c = Config::parse_args(Program::Accumulate, &args(&["--batch", "--rank", "3"]));
    assert_eq!((c.batch, c.rank), (60000, 64));
}

#[test]
fn benchmark_lines_are_read() {
    let c = parse_bench_args(&args(&["--n", "10", "--iters", "x", "--T", "3", "--r"]));
    assert_eq!(c, BenchConfig { n: 10, b: 784, a: 128, r: 64, t: 3, iters: 10 });
    let c = parse_bench_args(&args(&["--a", "1", "--b", "2", "--r", "3"]));
    assert_eq!((c.a, c.b, c.r), (1, 2, 3));
}

#[test]
fn lists_keep_their_numbers() {
    assert_eq!(parse_list("1,2, 3"), vec![1, 2, 3]);
    assert_eq!(parse_list("a,,4,-5"), vec![4]);
    assert!(parse_list("").is_empty());
}

// ---------------------------------------------------------------------------
// Text
// ---------------------------------------------------------------------------

#[test]
fn numbers_are_parsed() {
    assert_eq!(parse_usize("+12"), Ok(12));
    assert_eq!(parse_usize(""), Err(NumberFault::Empty));
    assert_eq!(parse_usize("+"), Err(NumberFault::InvalidDigit));
    assert_eq!(parse_usize("-1"), Err(NumberFault::InvalidDigit));
    assert_eq!(parse_unsigned("256", 255), Err(NumberFault::TooLarge));
    assert_eq!(parse_unsigned("255", 255), Ok(255));
    assert_eq!(parse_i32("-2147483648"), Ok(i32::MIN));
    assert_eq!(parse_i32("-2147483649"), Err(NumberFault::TooSmall));
    assert_eq!(parse_i32("2147483648"), Err(NumberFault::TooLarge));
    assert_eq!(parse_i32("-"), Err(NumberFault::InvalidDigit));
    for text in ["", "x", "99999999999999999999999", "+7", "--1", "1 "] {
        let ours = parse_usize(text).map_err(|e| e.message().to_string());
        let theirs = text.parse::<usize>().map_err(|e| e.to_string());
        assert_eq!(ours, theirs);
        let ours = parse_i32(text).map_err(|e| e.message().to_string());
        let theirs = text.parse::<i32>().map_err(|e| e.to_string());
        assert_eq!(ours, theirs);
    }
}

#[test]
fn texts_are_cut() {
    let white = " \t\n\u{85}\u{a0}\u{2003}\u{3000}x y\u{2028}";
    assert_eq!(trim(white), white.trim());
    assert_eq!(split_words(" a  bc\td "), vec!["a", "bc", "d"]);
    assert_eq!(split_pieces("a,,b", ','), vec!["a", "", "b"]);
    assert_eq!(split_pieces("", ','), vec![""]);
    assert_eq!(decimal_string(0), "0");
    assert_eq!(decimal_string(1205), "1205");
    assert!(same_text("ab", "ab") && !same_text("ab", "a"));
    let chars = chars_of("abcabc");
    assert_eq!(find_from(&chars, &chars_of("bc"), 2), Some(4));
    assert_eq!(find_from(&chars, &chars_of("x"), 0), None);
    assert_eq!(string_of(&chars, 1, 4), "bca");
}

// ---------------------------------------------------------------------------
// Launches
// ---------------------------------------------------------------------------

#[test]
fn grids_cover_their_threads() {
    assert_eq!((grid_size(0), grid_size(1), grid_size(256), grid_size(257)), (0, 1, 1, 2));
    assert_eq!(grid_size(u32::MAX), 16777216);
    assert_eq!(noise_threads(256), Some(2));
    assert_eq!(noise_threads(100), None);
    assert_eq!(launch_grid(784, 384000, 4000), (7, 96));
    assert_eq!(launch_grid(1, 0, ROWS_PER_SLICE), (1, 1));
    assert_eq!((default_pitch(48), default_pitch(49)), (48, 52));
}

#[test]
fn bad_launches_are_refused() {
    assert_eq!(frame_total(3, 4), Ok(12));
    assert_eq!(frame_total(0, 4), Err(LaunchError::Total));
    assert_eq!(frame_total(usize::MAX, 4), Err(LaunchError::Total));
    assert_eq!(frame_total(1 << 20, 1 << 20), Err(LaunchError::Total));
    assert_eq!(poisson_total(3, 4, 8), Ok(12));
    assert_eq!(poisson_total(3, 4, 9), Err(LaunchError::Steps));
    assert_eq!(einsum_rows([4, 3, 128], [4, 3, 784]), Ok(12));
    assert_eq!(einsum_rows([4, 3, 129], [4, 3, 784]), Err(LaunchError::Columns));
    assert_eq!(einsum_rows([0, 3, 1], [0, 3, 7]), Err(LaunchError::Columns));
    assert_eq!(einsum_rows([4, 3, 1], [4, 2, 7]), Err(LaunchError::Shape));
    assert_eq!(gemm_atb_sizes([7, 2], [7, 3]), Ok(GemmSizes { m: 2, n: 3, k: 7 }));
    assert_eq!(gemm_atb_sizes([7, 2], [8, 3]), Err(LaunchError::Shape));
}

#[test]
fn launch_seeds_are_mixed() {
    let mix = |x: u64| {
        let mut h = x ^ (x >> 30);
        h = h.wrapping_mul(0xbf58_476d_1ce4_e5b9);
        h ^= h >> 27;
        h = h.wrapping_mul(0x94d0_49bb_1331_11eb);
        (h ^ (h >> 31)) as u32
    };
    let (c, n) = (0x1234_5678_9abc_def0_u64, 0x0fed_cba9_8765_4321_u64);
    assert_eq!(next_seeds(c, n), [mix(c), mix(c >> 32), mix(n), mix(n >> 32)]);
    assert_eq!(nul_terminated(b"ptx"), b"ptx\0".to_vec());
}

// ---------------------------------------------------------------------------
// The paired einsum
// ---------------------------------------------------------------------------

fn einsum_ops() -> EinsumOps<
    f32,
    impl Fn((f32, f32, f32)) -> f32,
    impl Fn((f32, f32, f32)) -> f32,
    impl Fn((f32, f32)) -> f32,
    impl Fn((f32, f32)) -> f32,
> {
    EinsumOps {
        zero: 0.0_f32,
        weight: |w: (f32, f32, f32)| w.0 * (w.1 + w.2),
        fma: |w: (f32, f32, f32)| w.0 + w.1 * w.2,
        add: |w: (f32, f32)| w.0 + w.1,
        add_double: |w: (f32, f32)| w.0 + 2.0 * w.1,
    }
}

fn run_check(c: CheckSizes, seed: &mut u64) {
    let check = EinsumCheck {
        ops: einsum_ops(),
        wide_zero: 0.0_f64,
        scaled: |x: u32| (x as f32 / (1u64 << 31) as f32) * 2.0 - 1.0,
        acc_raw: |w: (f64, f32, f32, f32, f32)| w.0 + w.1 as f64 * (w.2 + w.3) as f64 * w.4 as f64,
        acc_ones: |w: (f64, f32, f32)| w.0 + w.1 as f64 * w.2 as f64,
        to_raw: |x: f64| x as f32,
        to_ones: |x: f64| (2.0 * x) as f32,
        far: |p: (f32, f32)| (p.0 - p.1).abs() > 1e-4 * (1.0 + p.1.abs()),
        gap: |g: (f32, f32, f32)| g.0.max((g.1 - g.2).abs()),
        size: |s: (f32, f32)| s.0.max(s.1.abs()),
        close: |g: (f32, f32, f32)| g.0.max(g.1) < 1e-3 * (1.0 + g.2),
    };
    let report = check.run_test_pitched(c, seed);
    assert!(report.passed, "{c:?}: {} {} {}", report.raw_gap, report.ones_gap, report.scale);
    assert_eq!((report.bad_a, report.bad_b), (0, 0));
    assert_eq!(report.raw.len(), c.a * c.b);
    assert!(report.scale > 0.0);
}

#[test]
fn the_kernel_agrees_with_its_reference() {
    let mut seed = 0x1234_5678_9abc_def0_u64;
    let plain = [
        (8, 3, 2, 3), (2, 16, 8, 8), (2, 32, 8, 8), (4, 32, 8, 8), (8, 64, 8, 8), (2, 64, 12, 8),
        (2, 64, 32, 8), (50, 64, 8, 128), (64, 64, 10, 128), (2, 64, 32, 48),
    ];
    for (half, r, a, b) in plain {
        run_check(CheckSizes { half, r, a, b, a_pitch: a, b_pitch: b }, &mut seed);
    }
    let c = CheckSizes { half: 2, r: 64, a: 32, b: 48, a_pitch: 32, b_pitch: 64 };
    run_check(c, &mut seed);
}

#[test]
fn many_slices_agree_with_the_reference() {
    // More rows than a slice holds.
    let mut seed = 7;
    run_check(CheckSizes { half: 100, r: 64, a: 4, b: 5, a_pitch: 4, b_pitch: 8 }, &mut seed);
}

#[test]
fn operands_come_from_the_generator() {
    let mut data = vec![0_u32; 3];
    let mut seed = 5_u64;
    fill_rng(&mut data, &mut seed, &|x: u32| x);
    let mut s = 5_u64;
    for v in &data {
        s = s.wrapping_mul(6364136223846793005).wrapping_add(1442695040888963407);
        assert_eq!(*v, (s >> 33) as u32);
    }
    assert_eq!(seed, s);
}

#[test]
fn tiles_and_accumulators_are_shown() {
    let (half, r, a, b) = (16, 2, 2, 3);
    let a_flat: Vec<f32> = (0..half * r * a).map(|i| i as f32).collect();
    let b_flat: Vec<f32> = (0..half * r * b).map(|i| (i % 7) as f32).collect();
    let scores: Vec<f32> = (0..2 * half).map(|i| i as f32 / 8.0).collect();
    let x = EinsumInput {
        shape: EinsumShape::pitched(half, r, a, b, a, b),
        a_flat: &a_flat,
        b_flat: &b_flat,
        scores: &scores,
    };
    let ops = einsum_ops();
    let (ta, tb) = ops.einsum_pair_dump_tiles(&x);
    let s = scores[0] + scores[half];
    assert_eq!(ta[..4], [0.0, 1.0 * s, 0.0, 1.0]);
    assert_eq!(ta[257..261], [2.0 * s, 3.0 * s, 2.0, 3.0]);
    assert_eq!((&tb[..3], &tb[112..115]), (&b_flat[..3], &b_flat[3..6]));
    let dump = ops.einsum_pair_dump_acc(&x);
    // Stacked column 2 is the plain column 0.
    let plain: f32 = (0..32).map(|k| a_flat[k * a] * b_flat[k * b + 1]).sum();
    let mut raw = vec![0.0; a * b];
    let mut ones = vec![0.0; a * b];
    ops.einsum_pair_fused(&x, &mut raw, &mut ones, b, 1);
    assert_eq!(ones[1], 2.0 * plain);
    assert_eq!(dump[0], raw[0]);
    assert_eq!(count_mismatches(&[1, 2, 3], &[1, 0, 0], &|p: (i32, i32)| p.0 != p.1), 2);
}

#[test]
fn results_are_added_to_what_is_there() {
    let x = EinsumInput {
        shape: EinsumShape::pitched(1, 1, 1, 2, 1, 2),
        a_flat: &[3.0],
        b_flat: &[5.0, 7.0],
        scores: &[1.0, 1.0],
    };
    // The row of the result is one element longer than it needs to be.
    let mut raw = vec![100.0, 200.0, 300.0];
    let mut ones = vec![1.0, 2.0, 3.0];
    einsum_ops().einsum_pair_fused(&x, &mut raw, &mut ones, 3, 4);
    assert_eq!(raw, vec![130.0, 242.0, 300.0]);
    assert_eq!(ones, vec![31.0, 44.0, 3.0]);
}

// ---------------------------------------------------------------------------
// Equivalence and runs
// ---------------------------------------------------------------------------

/// A parameter is a matrix of one number, a sample's fitness its square number plus the parameter.
fn compare(
    batch: usize,
    accumulate: usize,
    available: usize,
    fair: bool,
) -> Option<Comparison<i64>> {
    let normal = |u: (u32, u32)| ((u.0 ^ u.1) % 7) as i64 + 1;
    let signed: fn((i32, i64)) -> i64 = |s| s.0 as i64 * s.1;
    let draws = NoiseOps {
        normal,
        scaled: signed,
        signed,
        scale: |x: i64| 3 * x,
        hushed: |_: i64| 0,
    };
    let arith = GradientOps {
        zeros: |_: &[usize; 2]| 0_i64,
        add: |acc: &i64, noise: &Noise<i64>, score: &i64| match noise {
            Noise::Dense(v) => acc + v[0] * score,
            Noise::Lora(f) => acc + f.a[0] * f.b[0] * score,
            _ => *acc,
        },
        sign_a: |x: i64| x.signum(),
        sign_b: |x: i64| x.signum(),
        mean: |acc: &i64, share: &(usize, usize, usize)| acc * share.1 as i64,
        finish: |g: &i64, _: &usize| -g,
    };
    let chunks = AccumulateOps {
        normal,
        signed,
        scaled: signed,
        zeros: |_: &[usize; 2]| 0_i64,
        add_lora: |acc: &i64, flat: &Vec<i64>, scores: &Vec<i64>, _: &[usize; 2]| {
            let terms = flat.chunks(2).zip(scores).map(|(row, s)| row[0] * 3 * row[1] * s);
            acc + terms.sum::<i64>()
        },
        add_dense: move |acc: &i64, flat: &Vec<i64>, scores: &Vec<i64>, _: &[usize; 2]| {
            let sum = flat.iter().zip(scores).map(|(x, s)| x * s).sum::<i64>();
            acc + sum + if fair { 0 } else { 1 }
        },
        rescale: |g: &i64, _: &usize| -g,
    };
    let keep = |m: &i64, _: &i64, _: &i64| *m;
    let solver_ops = SolverOps {
        sgd: |p: &i64, g: &i64, lr: &i64| p - g * lr,
        first: keep,
        second: keep,
        adam: |p: &i64, _: &i64, _: &i64, _: &AdamRule<i64>| *p,
        clip: |g: &Vec<i64>, _: &i64| g.clone(),
    };
    let frozen = FrozenNoiserParams {
        group_size: 0,
        freeze_nonlora: false,
        noise_reuse: 0,
        rank: 1,
        solver: Solver::sgd(1),
    };
    let noiser = NoiserParams { sigma: 1, opt_state: OptimizerState { step: 0, moments: vec![] } };
    let check = EquivalenceOps {
        frozen: &frozen,
        noiser: &noiser,
        params: &vec![7, 8, 9],
        shapes: &[[1, 1], [1, 1], [1, 1]],
        base_keys: &[1, 2, 3],
        es_classes: &[1, 0, 2],
        cores: 2,
        draws: &draws,
        arith: &arith,
        chunks: &chunks,
        solver_ops: &solver_ops,
        copy: &|p: &i64| *p,
        score: |p: &Vec<i64>, r: &(usize, usize)| {
            (r.0..r.1).map(|i| (i * i) as i64 % 11 + p[0]).collect::<Vec<i64>>()
        },
        convert: |raw: &Vec<i64>, _: &i32| {
            let top = raw.iter().max().copied().unwrap_or(0);
            raw.iter().map(|x| (x - top) * raw.len() as i64).collect::<Vec<i64>>()
        },
        gap: |a: &Vec<i64>, b: &Vec<i64>| {
            assert_eq!((a[2], b[2]), (9, 9));
            a.iter().zip(b).map(|(x, y)| (x - y).abs()).max().unwrap()
        },
        differs: |g: &i64| *g > 0,
        control_differs: |g: &i64| *g > 0,
    };
    check.run_verify(batch, accumulate, available)
}

#[test]
fn accumulation_is_compared_with_the_batch() {
    let c = compare(12, 3, 100, true).unwrap();
    assert_eq!((c.size, c.chunks, c.chunk), (12, 3, 4));
    assert_eq!((c.forward, c.update), (0, 0));
    assert!(c.control > 0);
    assert_eq!(c.verdict, Verdict::Pass);
    // Three chunks, each with one too much.
    let c = compare(12, 3, 100, false).unwrap();
    assert_eq!((c.update, c.verdict), (3, Verdict::UpdateDiffers));
    // One chunk is the whole batch, so the control agrees.
    let c = compare(12, 1, 100, true).unwrap();
    assert_eq!((c.control, c.verdict), (0, Verdict::ControlAgrees));
    assert!(compare(12, 3, 5, true).is_none());
}

#[test]
fn epochs_follow_each_other() {
    let seen = std::cell::RefCell::new(Vec::new());
    let ops = SmokeOps {
        encode: |epoch: &i32| *epoch * 100,
        evaluate: |m: &i64, x: &i32, info: &IterInfo| {
            seen.borrow_mut().push(*info);
            vec![*m + *x as i64 + info.thread_id as i64]
        },
        stack: |a: &Vec<i64>, b: &Vec<i64>| [a.clone(), b.clone()].concat(),
        fitness: |l: &Vec<i64>| l.clone(),
        update: |m: &i64, f: &Vec<i64>, infos: &Vec<IterInfo>| {
            // The iterations of the update are those of the evaluation.
            assert_eq!(seen.borrow()[seen.borrow().len() - 3..], infos[..]);
            m + f.iter().sum::<i64>() + infos[0].epoch as i64
        },
        accuracy: |l: &Vec<i64>| -l[0],
        better: |a: &i64, b: &i64| *a.max(b),
        params: |m: &i64| vec![*m, 2 * m],
        gap: |a: &Vec<i64>, b: &Vec<i64>| {
            a.iter().zip(b).map(|(x, y)| (x - y).abs()).max().unwrap()
        },
    };
    let stats = ops.train_smoke_stats(1, 3, 2, -1000);
    // 1 + (1 + 2 + 3) + 0, then 7 + (107 + 108 + 109) + 1.
    assert_eq!((stats.model, stats.best_acc, stats.max_param_delta), (332, -1, 662));
    let pairs: Vec<(i32, i32)> = seen.borrow().iter().map(|i| (i.epoch, i.thread_id)).collect();
    assert_eq!(pairs, vec![(0, 0), (0, 1), (0, 2), (1, 0), (1, 1), (1, 2)]);
    let none = ops.train_smoke_stats(5, 3, 0, 9);
    assert_eq!((none.model, none.best_acc, none.max_param_delta), (5, 9, 0));
}

#[test]
fn an_epoch_adds_up_its_chunks() {
    let ranges = std::cell::RefCell::new(Vec::new());
    let ops = EpochOps {
        evaluate: |p: &Vec<i64>, r: &ChunkRange| {
            ranges.borrow_mut().push((r.epoch, r.lo, r.hi));
            let n = (r.hi - r.lo) as i64;
            ChunkSums {
                raw: p.iter().map(|x| x * n).collect(),
                ones: vec![1; p.len()],
                total: n,
                squares: r.lo as i64,
                correct: 5,
            }
        },
        zeros: |_: &i64| 0,
        add: |a: &i64, b: &i64| a + b,
        zero: 0,
        plus: |a: &i64, b: &i64| a + b,
        over: |x: &i64, n: &usize| x * 100 / *n as i64,
        deviation: |mean: &i64, square: &i64| mean + square,
        affine: AffineOps {
            times: |p: &i64, s: &i64| p * s,
            minus: |a: &i64, b: &i64| a - b,
            factor: |std: &i64, n: &usize| std + *n as i64,
        },
    };
    let keep = |m: &i64, _: &i64, _: &i64| *m;
    let solver_ops = SolverOps {
        sgd: |p: &i64, g: &i64, lr: &i64| p - g * lr,
        first: keep,
        second: keep,
        adam: |p: &i64, _: &i64, _: &i64, _: &AdamRule<i64>| *p,
        clip: |g: &Vec<i64>, _: &i64| g.clone(),
    };
    let mut state = OptimizerState { step: 0, moments: vec![] };
    let (params, accuracy) =
        ops.run_epoch(&solver_ops, &Solver::sgd(1), &vec![10, 20], &mut state, 4, 3, 2);
    assert_eq!(*ranges.borrow(), vec![(4, 0, 2), (4, 2, 4), (4, 4, 6)]);
    // Sums 60, 120 and 3; mean 600 / 6, mean square 600 / 6, deviation 200, factor 206.
    assert_eq!(params, vec![10 - (60 - 300) * 206, 20 - (120 - 300) * 206]);
    assert_eq!(accuracy, 1500 / 6);
    assert_eq!(state.step, 0);
}
