use core::f32::consts::PI;

use hyperscalees::kernels::{
    lif_fused, poisson_encode_fused, prng_normal_half_kernel, N_VALUES_PER_THREAD,
};
use hyperscalees::prng::{
    init_states, lcg_step, next_unit, next_units, taus_step_0, taus_step_1, taus_step_2,
    thread_seed, to_unit_interval_open, UNIT_DENOMINATOR,
};

fn unit(numerator: u32) -> f32 {
    numerator as f32 / UNIT_DENOMINATOR as f32
}

fn box_muller(unit_0: f32, unit_1: f32, mean: f32, std: f32) -> (f32, f32) {
    let coeff = (unit_0.ln() * -2.0).sqrt() * std;
    let trigo_arg = 2.0 * PI * unit_1;
    (f32::cos(trigo_arg) * coeff + mean, f32::sin(trigo_arg) * coeff + mean)
}

#[test]
fn box_muller_matches_reference() {
    let (u0, u1) = next_units(&mut init_states(0, 1, 2, 3, 4));
    let (n0, n1) = box_muller(unit(u0), unit(u1), 0.0, 1.0);
    assert!(n0.is_finite() && n1.is_finite());
    let (m0, m1) = box_muller(unit(u0), unit(u1), 0.0, 1.0);
    assert_eq!((n0.to_bits(), n1.to_bits()), (m0.to_bits(), m1.to_bits()));
}

#[test]
fn prng_normal_half_kernel_stats() {
    let normal = |u: (u32, u32)| box_muller(unit(u.0), unit(u.1), 0.0, 1.0);
    let mut out = vec![0.0_f32; 4 * N_VALUES_PER_THREAD];
    prng_normal_half_kernel(&mut out, 4, &normal, [11, 22, 33, 44]);
    let mean = out.iter().sum::<f32>() / out.len() as f32;
    let var = out.iter().map(|x| x * x).sum::<f32>() / out.len() as f32 - mean * mean;
    assert!(mean.abs() < 0.3, "mean={mean}");
    assert!((var - 1.0).abs() < 0.4, "var={var}");
    let mut out2 = vec![0.0_f32; 4 * N_VALUES_PER_THREAD];
    prng_normal_half_kernel(&mut out2, 4, &normal, [11, 22, 33, 44]);
    assert_eq!(out, out2);
}

#[test]
fn pi_const_used() {
    // Half a turn of a draw: the kernel fills its buffer with what it is handed.
    let angles = |u: (u32, u32)| (PI * unit(u.0), PI * unit(u.1));
    let mut out = vec![0.0_f32; N_VALUES_PER_THREAD];
    prng_normal_half_kernel(&mut out, 1, &angles, [1, 2, 3, 4]);
    assert!(out.iter().all(|a| *a > 0.0 && *a < PI));
}

#[test]
fn generator_steps_match_their_formulas() {
    assert_eq!(taus_step_0(0x1234_5678), {
        let z: u32 = 0x1234_5678;
        ((z & 4294967294) << 12) ^ (((z << 13) ^ z) >> 19)
    });
    assert_eq!(taus_step_1(1), ((1u32 & 4294967288) << 4) ^ (((1u32 << 2) ^ 1) >> 25));
    assert_eq!(taus_step_2(u32::MAX), {
        let z = u32::MAX;
        ((z & 4294967280) << 17) ^ (((z << 3) ^ z) >> 11)
    });
    assert_eq!(lcg_step(5), 5 * 1664525 + 1013904223);
    assert_eq!(lcg_step(u32::MAX), u32::MAX.wrapping_mul(1664525).wrapping_add(1013904223));
    assert_eq!(thread_seed(3), 3000000021);
    assert_eq!(thread_seed(7), 1000000007u32.wrapping_mul(7));
    assert_eq!(
        init_states(7, 1, 2, 3, u32::MAX)[3],
        1000000007u32.wrapping_mul(7).wrapping_add(u32::MAX)
    );
}

#[test]
fn unit_draws_stay_inside_the_open_interval() {
    assert_eq!(to_unit_interval_open(0), 1);
    assert_eq!(to_unit_interval_open(u32::MAX), UNIT_DENOMINATOR - 1);
    let mut x: u32 = 2463534242;
    for _ in 0..1000 {
        let u = next_unit(&mut x);
        assert!(u > 0 && u < UNIT_DENOMINATOR);
        assert_ne!(x, 0);
    }
}

#[test]
fn noise_elements_follow_the_threads() {
    let mut out = vec![(0u32, false); 2 * N_VALUES_PER_THREAD];
    let mark = |u: (u32, u32)| ((u.0, false), (u.1, true));
    prng_normal_half_kernel(&mut out, 2, &mark, [1, 2, 3, 4]);
    for t in 0..2u32 {
        let mut st = init_states(t, 1, 2, 3, 4);
        for i in 0..64 {
            let (u0, u1) = next_units(&mut st);
            assert_eq!(out[t as usize * 128 + 2 * i], (u0, false));
            assert_eq!(out[t as usize * 128 + 2 * i + 1], (u1, true));
        }
    }
}

#[test]
fn poisson_encoding_keeps_to_the_rows() {
    // Two rows of three elements, rows four apart; two time steps.
    let probs = vec![0.0_f32, 1.0, 0.5, -9.0, 1.0, 0.0, 1.0];
    let mut out = vec![7.0_f32; 16];
    let fire = |d: (u32, f32)| if unit(d.0) < d.1 { 1.0_f32 } else { 0.0 };
    poisson_encode_fused(&probs, &mut out, 6, 3, 4, 2, [1, 2, 3, 4], &fire);
    for step in 0..2 {
        let frame = &out[8 * step..8 * step + 8];
        assert_eq!((frame[0], frame[1]), (0.0, 1.0));
        assert!(frame[2] == 0.0 || frame[2] == 1.0);
        assert_eq!(frame[3], 7.0);
        assert_eq!((frame[4], frame[5], frame[6]), (1.0, 0.0, 1.0));
        assert_eq!(frame[7], 7.0);
    }
}

#[test]
fn poisson_encoding_fires_at_its_rate() {
    let total = 20000;
    let probs = vec![0.3_f32; total];
    let mut out = vec![0.0_f32; total];
    let fire = |d: (u32, f32)| if unit(d.0) < d.1 { 1.0_f32 } else { 0.0 };
    poisson_encode_fused(&probs, &mut out, total, total, total, 1, [9, 8, 7, 6], &fire);
    let rate = out.iter().sum::<f32>() / total as f32;
    assert!((rate - 0.3).abs() < 0.03, "rate={rate}");
}

fn lif_step(tau_m: f32, v_th: f32, v: f32, current: f32) -> (f32, f32) {
    let charged = v + (current - v) * (1.0 / tau_m);
    let spike = if charged >= v_th { 1.0 } else { 0.0 };
    (spike, charged * (1.0 - spike))
}

#[test]
fn lif_scan_integrates_fires_and_resets() {
    // One neuron, flat layout: 6 / 20 = 0.3 reaches the threshold at once.
    let step = |s: (f32, f32)| lif_step(20.0, 0.5, s.0, s.1);
    let cur = vec![6.0_f32; 4];
    let mut out = vec![9.0_f32; 4];
    lif_fused(&cur, &[0.0], &mut out, 1, 1, 1, 4, &step);
    assert_eq!(out, vec![0.0, 1.0, 0.0, 1.0]);
}

#[test]
fn lif_scan_respects_pitched_rows() {
    // Two rows of one element, rows two apart, two steps.
    let step = |s: (i32, i32)| (s.0 * 10 + s.1, s.0 + s.1);
    let cur = vec![1, -1, 2, -1, 3, -1, 4];
    let v0 = vec![5, -1, 6];
    let mut out = vec![0; 7];
    lif_fused(&cur, &v0, &mut out, 2, 1, 2, 2, &step);
    assert_eq!(out, vec![51, 0, 62, 0, 63, 0, 84]);
}
