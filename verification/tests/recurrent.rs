use hyperscalees::mixers::{
    AttentionPass, Binary, ChannelMixing, ChannelPass, Gates6, Gates7, PerHead, RWKV6Attention,
    TimeMixing, TimePass, Unary,
};
use hyperscalees::recurrent::{
    group_channels, inner_loop, kv_repeats, repeat_axis1, token_shift, MixerShape,
};

const TOL: f32 = 1e-4;

fn near(a: f32, b: f32) -> bool {
    (a - b).abs() <= TOL
}

/// Heads of square matrices, `[h][row][column]`.
type State = Vec<Vec<Vec<f32>>>;

/// `[t][h][s]`.
type Gate = Vec<Vec<Vec<f32>>>;

fn gate(t: usize, h: usize, s: usize, v: f32) -> Gate {
    vec![vec![vec![v; s]; h]; t]
}

fn rwkv7_step(state: &State, g: &[Gate; 6], t: &usize) -> (State, Vec<Vec<f32>>) {
    let [r, w, k, v, a, b] = g;
    let mut next = state.clone();
    let mut out = Vec::new();
    for h in 0..state.len() {
        let s = state[h].len();
        for i in 0..s {
            let sa: f32 = (0..s).map(|j| state[h][i][j] * a[*t][h][j]).sum();
            for j in 0..s {
                let decay = (-(w[*t][h][j].exp())).exp();
                next[h][i][j] =
                    state[h][i][j] * decay + v[*t][h][i] * k[*t][h][j] + sa * b[*t][h][j];
            }
        }
        out.push((0..s).map(|i| (0..s).map(|j| next[h][i][j] * r[*t][h][j]).sum()).collect());
    }
    (next, out)
}

fn rwkv6_step(state: &State, g: &[Gate; 4], t: &usize) -> (State, Vec<Vec<f32>>) {
    let [r, k, v, w] = g;
    let mut next = state.clone();
    let mut out = Vec::new();
    for h in 0..state.len() {
        let s = state[h].len();
        for i in 0..s {
            for j in 0..s {
                next[h][i][j] = k[*t][h][i] * v[*t][h][j] + w[*t][h][i].exp() * state[h][i][j];
            }
        }
        let scale = (s as f32).powf(-0.5);
        out.push((0..s).map(|j| (0..s).map(|i| r[*t][h][i] * scale * next[h][i][j]).sum()).collect());
    }
    (next, out)
}

fn copy(s: &State) -> State {
    s.clone()
}

fn start() -> State {
    vec![vec![vec![1.0, 2.0], vec![3.0, 4.0]], vec![vec![5.0, 6.0], vec![7.0, 8.0]]]
}

fn receptance() -> Gate {
    vec![vec![vec![1.0, 0.0], vec![0.0, 1.0]], vec![vec![1.0, 1.0], vec![1.0, 1.0]]]
}

fn assert_all_near(got: &[Vec<Vec<f32>>], expected: &[[[f32; 2]; 2]; 2]) {
    for (x, y) in got.iter().zip(expected) {
        for (p, q) in x.iter().zip(y) {
            for (a, b) in p.iter().zip(q) {
                assert!(near(*a, *b), "{a} against {b}");
            }
        }
    }
}

const QUARTER: [[[f32; 2]; 2]; 2] =
    [[[0.25, 0.5], [0.75, 1.0]], [[1.25, 1.5], [1.75, 2.0]]];

#[test]
fn rwkv7_inner_loop_matches_hand_computed() {
    let z = gate(2, 2, 2, 0.0);
    let w = gate(2, 2, 2, 2.0_f32.ln().ln());
    let gates = [receptance(), w, z.clone(), z.clone(), z.clone(), z];
    let zero = vec![vec![vec![0.0; 2]; 2]; 2];
    let (state, out) =
        inner_loop(start(), &zero, &gates, 2, 2, &[false, false], &rwkv7_step, &copy);
    assert_all_near(&out, &[[[0.5, 1.5], [3.0, 4.0]], [[0.75, 1.75], [2.75, 3.75]]]);
    assert_all_near(&state, &QUARTER);
}

#[test]
fn rwkv6_inner_loop_matches_hand_computed() {
    let z = gate(2, 2, 2, 0.0);
    let w = gate(2, 2, 2, 0.5_f32.ln());
    let gates = [receptance(), z.clone(), z, w];
    let zero = vec![vec![vec![0.0; 2]; 2]; 2];
    let (state, out) =
        inner_loop(start(), &zero, &gates, 2, 2, &[false, false], &rwkv6_step, &copy);
    let c = 2.0_f32.powf(-0.5);
    assert_all_near(
        &out,
        &[[[c * 0.5, c * 1.0], [c * 3.5, c * 4.0]], [[c * 1.0, c * 1.5], [c * 3.0, c * 3.5]]],
    );
    assert_all_near(&state, &QUARTER);
}

fn count(s: &u32, g: &[u32; 4], t: &usize) -> (u32, u32) {
    (s * 10 + g[*t], s * 100)
}

#[test]
fn new_sequences_start_from_zero() {
    let (state, out) =
        inner_loop(9, &0, &[1, 2, 3, 4], 4, 4, &[false, false, true, false], &count, &|s: &u32| *s);
    assert_eq!(state, 34);
    assert_eq!(out, vec![900, 9100, 0, 300]);
    // Whatever came before.
    let (other, _) =
        inner_loop(5, &0, &[1, 2, 3, 4], 4, 4, &[false, false, true, false], &count, &|s: &u32| *s);
    assert_eq!(other, state);
}

#[test]
fn the_state_is_that_of_the_last_counting_step() {
    for (length, expected) in [(0, 9), (1, 91), (3, 9123), (7, 91234)] {
        let (state, out) =
            inner_loop(9, &0, &[1, 2, 3, 4], 4, length, &[false; 4], &count, &|s: &u32| *s);
        assert_eq!(state, expected);
        assert_eq!(out.len(), 4);
    }
}

#[test]
fn rows_are_shifted_by_one() {
    let x = [1, 2, 3, 4, 5, 6];
    assert_eq!(token_shift(&[7, 8], &x, &[false; 3], 2, 0), vec![7, 8, 1, 2, 3, 4]);
    assert_eq!(token_shift(&[7, 8], &x, &[true, false, true], 2, 0), vec![0, 0, 1, 2, 0, 0]);
}

// ---------------------------------------------------------------------------
// Mixers
// ---------------------------------------------------------------------------

/// A row of channels per time step.
type Rows = Vec<Vec<f32>>;

fn rows_of(c: usize) -> impl Fn(&Vec<f32>) -> Rows {
    move |flat: &Vec<f32>| flat.chunks(c).map(|r| r.to_vec()).collect()
}

fn channel(t: usize) -> impl Fn(&Vec<f32>) -> Rows {
    move |c: &Vec<f32>| vec![c.clone(); t]
}

/// A product with a weight of a row per output.
fn linear(w: &Rows, x: &Rows) -> Rows {
    let dot = |r: &Vec<f32>, v: &Vec<f32>| r.iter().zip(v).map(|(a, b)| a * b).sum();
    x.iter().map(|v| w.iter().map(|r| dot(r, v)).collect()).collect()
}

/// A product with a weight of a row per input.
fn low(w: &Rows, x: &Rows) -> Rows {
    let column = |v: &Vec<f32>, j: usize| v.iter().zip(w).map(|(a, r)| a * r[j]).sum();
    x.iter().map(|v| (0..w[0].len()).map(|j| column(v, j)).collect()).collect()
}

fn unary(op: &Unary, x: &Rows) -> Rows {
    let f: fn(f32) -> f32 = match op {
        Unary::Tanh => f32::tanh,
        Unary::Sigmoid => |v| 1.0 / (1.0 + (-v).exp()),
        Unary::Relu => |v| v.max(0.0),
        Unary::Square => |v| v * v,
        Unary::Exp => f32::exp,
        Unary::Neg => |v| -v,
        Unary::Softplus => |v| v.max(0.0) + (-v.abs()).exp().ln_1p(),
        Unary::LessHalf => |v| v - 0.5,
        Unary::LessOne => |v| v - 1.0,
        Unary::PlusOne => |v| v + 1.0,
        Unary::AtLeastMinusFive => |v| v.max(-5.0),
    };
    x.iter().map(|r| r.iter().map(|v| f(*v)).collect()).collect()
}

fn binary(op: &Binary, x: &Rows, y: &Rows) -> Rows {
    let f: fn(f32, f32) -> f32 = match op {
        Binary::Add => |a, b| a + b,
        Binary::Sub => |a, b| a - b,
        Binary::Mul => |a, b| a * b,
    };
    let row = |(r, q): (&Vec<f32>, &Vec<f32>)| r.iter().zip(q).map(|(a, b)| f(*a, *b)).collect();
    x.iter().zip(y).map(row).collect()
}

fn per_head(op: &PerHead, x: &Rows, m: &MixerShape) -> Rows {
    let head = |h: &[f32]| -> Vec<f32> {
        match op {
            PerHead::Unit => {
                let norm = h.iter().map(|v| v * v).sum::<f32>().sqrt().max(1e-12);
                h.iter().map(|v| v / norm).collect()
            }
            PerHead::Spread => vec![h.iter().sum(); h.len()],
            PerHead::Scale => h.iter().map(|v| v * (m.s as f32).powf(-0.5)).collect(),
        }
    };
    x.iter().map(|r| r.chunks(m.s).flat_map(head).collect()).collect()
}

fn load(rows: &Vec<f32>) -> State {
    rows.chunks(4).map(|m| m.chunks(2).map(|r| r.to_vec()).collect()).collect()
}

fn save(s: &State) -> Vec<f32> {
    s.concat().concat()
}

fn stack(outs: &Vec<Vec<Vec<f32>>>) -> Rows {
    outs.iter().map(|o| o.concat()).collect()
}

fn heads(x: &Rows) -> Gate {
    x.iter().map(|r| r.chunks(2).map(|h| h.to_vec()).collect()).collect()
}

/// A step of the seventh recurrence; the decay is given as the share that is kept.
fn step7(state: &State, g: &Gates7<Rows>, t: &usize) -> (State, Vec<Vec<f32>>) {
    let log = |x: &Rows| -> Rows {
        x.iter().map(|r| r.iter().map(|v| (-v.ln()).ln()).collect()).collect()
    };
    let gates = [heads(&g.r), heads(&log(&g.w)), heads(&g.k), heads(&g.v), heads(&g.a), heads(&g.b)];
    rwkv7_step(state, &gates, t)
}

/// A step of the sixth recurrence on scaled receptances.
fn step6(state: &State, g: &Gates6<Rows>, t: &usize) -> (State, Vec<Vec<f32>>) {
    let log = |x: &Rows| -> Rows { x.iter().map(|r| r.iter().map(|v| v.ln()).collect()).collect() };
    let back = |x: &Rows| -> Rows {
        x.iter().map(|r| r.iter().map(|v| v * 2.0_f32.sqrt()).collect()).collect()
    };
    let gates = [heads(&back(&g.r)), heads(&g.k), heads(&g.v), heads(&log(&g.w))];
    rwkv6_step(state, &gates, t)
}

fn copy_rows(x: &Rows) -> Rows {
    x.clone()
}

fn norm(scale: &f32, x: &Rows, _h: &usize) -> Rows {
    x.iter().map(|r| r.iter().map(|v| v * scale).collect()).collect()
}

#[test]
fn channel_mixing_single_step_hand_computed() {
    let model = ChannelMixing { x_k: vec![2.0_f32], key: vec![vec![1.0]], value: vec![vec![1.0]] };
    let pass = ChannelPass {
        model: &model,
        shape: MixerShape::new(2, 1, 1, 1, 2).unwrap(),
        zero: 0.0_f32,
        rows: rows_of(1),
        channel: channel(2),
        linear,
        unary,
        binary,
    };
    let (out, state) = pass.forward(&[3.0, 5.0], &[1.0], &[false, false]);
    assert!(near(out[0][0], 0.0) && near(out[1][0], 1.0));
    assert_eq!(state.len(), 1);
    assert!(near(state[0], 5.0));
    // A row that starts a new sequence is shifted from zero: 3 - 3 * 2, then 5 - 5 * 2.
    let (out, _) = pass.forward(&[-3.0, -5.0], &[1.0], &[true, true]);
    assert_eq!(out, vec![vec![9.0], vec![25.0]]);
}

/// Weights that differ from each other, `scale` times those.
fn weights(n: usize, scale: f32) -> Rows {
    let at = |i: usize, j: usize| ((i * 7 + j * 3 + n * 5) % 11) as f32 / 11.0 - 0.4;
    (0..4).map(|i| (0..4).map(|j| scale * at(i, j)).collect()).collect()
}

fn time_mixing(scale: f32) -> TimeMixing<Vec<f32>, Rows, Rows, f32> {
    let c = |n: usize| weights(n, scale)[0].clone();
    let w = |n: usize| weights(n, scale);
    TimeMixing {
        x_r: c(1),
        x_w: c(2),
        x_k: c(3),
        x_v: c(4),
        x_a: c(5),
        x_g: c(6),
        receptance: w(7),
        w0: c(8),
        w1: w(9),
        w2: w(10),
        key: w(11),
        value: w(12),
        v0: c(13),
        v1: w(14),
        v2: w(15),
        a0: c(16),
        a1: w(17),
        a2: w(18),
        g1: w(19),
        g2: w(20),
        k_k: c(21),
        k_a: c(22),
        ln_x: 1.0,
        r_k: c(23),
        output: w(24),
    }
}

fn mix_time(
    model: &TimeMixing<Vec<f32>, Rows, Rows, f32>,
    layer_id: usize,
    x: &[f32],
    state: &[f32],
    v_first: Rows,
    length: usize,
    new_starts: &[bool],
) -> (Rows, Vec<f32>, Rows) {
    let t = x.len() / 4;
    let pass = TimePass {
        model,
        layer_id,
        shape: MixerShape::new(t, 4, 2, 2, length).unwrap(),
        zero: 0.0_f32,
        zero_state: vec![vec![vec![0.0_f32; 2]; 2]; 2],
        rows: rows_of(4),
        channel: channel(t),
        linear,
        low,
        unary,
        binary,
        per_head,
        load,
        step: step7,
        copy_state: copy,
        save,
        stack,
        norm,
        copy: copy_rows,
    };
    pass.forward(x, state, v_first, new_starts)
}

#[test]
fn time_mixing_runs_and_shapes() {
    let x = [1.0_f32, 0.0, 1.0, 0.0, 0.0, 1.0, 0.0, 1.0];
    let state = [0.0_f32; 12];
    let v_first = vec![vec![0.0_f32; 4]; 2];
    let plain = time_mixing(0.0);
    let (out, next, first) = mix_time(&plain, 0, &x, &state, v_first.clone(), 2, &[false, false]);
    assert_eq!((out.len(), out[0].len()), (2, 4));
    assert_eq!(next.len(), 12);
    assert_eq!((first.len(), first[0].len()), (2, 4));
    assert!(out.iter().flatten().all(|v| v.is_finite()));
    // The first row is the last counting row of the input.
    assert_eq!(next[..4], x[4..]);
    // Every layer but the first keeps the first values.
    let (_, _, kept) = mix_time(&plain, 1, &x, &state, v_first.clone(), 2, &[false, false]);
    assert_eq!(kept, v_first);
    // The first layer hands its own values on; another one blends the given ones in.
    let model = time_mixing(1.0);
    let given = vec![vec![3.0_f32; 4]; 2];
    let (o0, _, own) = mix_time(&model, 0, &x, &state, given.clone(), 2, &[false, false]);
    let (o1, _, kept) = mix_time(&model, 1, &x, &state, given.clone(), 2, &[false, false]);
    assert_eq!(kept, given);
    assert_ne!(own, given);
    assert_ne!(o0, o1);
    let (same, _, _) = mix_time(&model, 0, &x, &state, v_first, 2, &[false, false]);
    assert_eq!(o0, same);
}

#[test]
fn a_time_mixer_by_hand() {
    // Without mixing, networks and keys, values pass through the direct readout alone.
    let mut model = time_mixing(0.0);
    let eye: Rows =
        (0..4).map(|i| (0..4).map(|j| if i == j { 1.0 } else { 0.0 }).collect()).collect();
    model.receptance = eye.clone();
    model.key = eye.clone();
    model.value = eye.clone();
    model.output = eye.clone();
    model.r_k = vec![1.0; 4];
    model.ln_x = 0.0;
    model.g1 = eye.clone();
    model.g2 = eye;
    let x = [1.0_f32, 2.0, 3.0, 0.0];
    let (out, next, first) =
        mix_time(&model, 0, &x, &[0.0; 12], vec![vec![0.0; 4]], 1, &[false]);
    assert_eq!(first, vec![x.to_vec()]);
    let sigmoid = |v: f32| 1.0 / (1.0 + (-v).exp());
    // Per head the sum of r * k, times v, times the output weights.
    let expected = [5.0, 10.0, 27.0, 0.0];
    for i in 0..4 {
        assert!(near(out[0][i], expected[i] * sigmoid(x[i])));
    }
    // The state is the outer product of values and keys of each head.
    assert_eq!(next[4..], [1.0, 2.0, 2.0, 4.0, 9.0, 0.0, 0.0, 0.0]);
}

#[test]
fn mixers_carry_their_state() {
    let model = time_mixing(1.0);
    let x: Vec<f32> = (0..16).map(|i| i as f32 / 16.0).collect();
    let state: Vec<f32> = (0..12).map(|i| i as f32 / 3.0).collect();
    let first = vec![vec![0.5_f32; 4]; 4];
    let half = first[..2].to_vec();
    let mix = |x: &[f32], state: &[f32], f: &Rows, length: usize, starts: &[bool]| {
        mix_time(&model, 1, x, state, f.clone(), length, starts)
    };
    let (all, last, _) = mix(&x, &state, &first, 4, &[false; 4]);
    let (one, middle, _) = mix(&x[..8], &state, &half, 2, &[false; 2]);
    let (two, end, _) = mix(&x[8..], &middle, &half, 2, &[false; 2]);
    assert_eq!([one, two].concat(), all);
    assert_eq!(end, last);
    // Only the counting rows reach the state.
    let (_, short, _) = mix(&x, &state, &first, 2, &[false; 4]);
    assert_eq!(short, middle);
    // Behind a new sequence, what came before does not matter.
    let starts = [false, false, true, false];
    let other: Vec<f32> = [vec![9.0; 8], x[8..].to_vec()].concat();
    let (a, sa, _) = mix(&x, &state, &first, 4, &starts);
    let (b, sb, _) = mix(&other, &[1.0; 12], &first, 4, &starts);
    assert_eq!((&a[2..], sa), (&b[2..], sb));
    assert_ne!(a[..2], b[..2]);
}

fn attention(scale: f32) -> RWKV6Attention<Vec<f32>, Rows, Rows> {
    let c = |n: usize| weights(n, scale)[0].clone();
    let w = |n: usize| weights(n, scale);
    let wide: Rows =
        weights(7, scale).iter().map(|r| (0..20).map(|j| r[j % 4] * (1 + j / 4) as f32).collect()).collect();
    RWKV6Attention {
        time_maa_x: c(1),
        time_maa_r: c(2),
        time_maa_k: c(3),
        time_maa_v: c(4),
        time_maa_w: c(5),
        time_maa_g: c(6),
        time_maa_w1: wide,
        time_maa_w2: w(8),
        time_decay: c(9),
        time_decay_w1: w(10),
        time_decay_w2: w(11),
        q_proj: w(12),
        k_proj: w(13),
        v_proj: w(14),
        gate: w(15),
        o_proj: w(16),
    }
}

fn attend(
    model: &RWKV6Attention<Vec<f32>, Rows, Rows>,
    x: &[f32],
    state: &[f32],
    length: usize,
) -> (Rows, Vec<f32>) {
    let t = x.len() / 4;
    let pass = AttentionPass {
        model,
        shape: MixerShape::new(t, 4, 2, 2, length).unwrap(),
        zero: 0.0_f32,
        zero_state: vec![vec![vec![0.0_f32; 2]; 2]; 2],
        rows: rows_of(4),
        channel: channel(t),
        linear,
        low,
        unary,
        binary,
        per_head,
        load,
        step: step6,
        copy_state: copy,
        save,
        stack,
        part: |x: &Rows, i: &usize| -> Rows {
            x.iter().map(|r| r[4 * i..4 * i + 4].to_vec()).collect()
        },
        repeat: |x: &Rows, n: &usize| -> Rows {
            x.iter().map(|r| repeat_axis1(r, 2, *n)).collect()
        },
    };
    pass.forward(x, state, &vec![false; t])
}

#[test]
fn rwkv6_attention_runs_and_shapes() {
    let x = [1.0_f32, 0.0, 1.0, 0.0, 0.0, 1.0, 0.0, 1.0];
    let (out, state) = attend(&attention(0.0), &x, &[0.0; 12], 2);
    assert_eq!((out.len(), out[0].len()), (2, 4));
    assert_eq!(state.len(), 12);
    assert!(out.iter().flatten().all(|v| v.is_finite()));
    assert_eq!(state[..4], x[4..]);
}

#[test]
fn attention_by_hand() {
    let mut model = attention(0.0);
    let eye: Rows =
        (0..4).map(|i| (0..4).map(|j| if i == j { 1.0 } else { 0.0 }).collect()).collect();
    model.q_proj = eye.clone();
    model.k_proj = eye.clone();
    model.v_proj = eye.clone();
    model.gate = eye.clone();
    model.o_proj = eye;
    let x = [1.0_f32, 2.0, 3.0, 0.0];
    let (out, state) = attend(&model, &x, &[0.0; 12], 1);
    // Keys are scaled by 1 - exp(-1), receptances by the root of two.
    let share = 1.0 - (-1.0_f32).exp();
    let sigmoid = |v: f32| 1.0 / (1.0 + (-v).exp());
    let expected = [5.0, 10.0, 27.0, 0.0];
    for i in 0..4 {
        let raw = expected[i] * share * 2.0_f32.powf(-0.5);
        assert!(near(out[0][i], raw * sigmoid(x[i])));
    }
    for (a, b) in state[4..].iter().zip([1.0, 2.0, 2.0, 4.0, 9.0, 0.0, 0.0, 0.0]) {
        assert!(near(*a, b * share));
    }
}

#[test]
fn attention_carries_its_state() {
    let model = attention(1.0);
    let x: Vec<f32> = (0..16).map(|i| i as f32 / 16.0).collect();
    let state: Vec<f32> = (0..12).map(|i| i as f32 / 3.0).collect();
    let (all, last) = attend(&model, &x, &state, 4);
    let (one, middle) = attend(&model, &x[..8], &state, 2);
    let (two, end) = attend(&model, &x[8..], &middle, 2);
    assert_eq!([one, two].concat(), all);
    assert_eq!(end, last);
    // Each of the five strengths has a part of its own.
    let swapped = attention(1.0);
    let mut other = attention(1.0);
    for r in other.time_maa_w1.iter_mut() {
        r.swap(16, 0);
    }
    assert_ne!(attend(&other, &x, &state, 4).0, attend(&swapped, &x, &state, 4).0);
}

#[test]
fn shapes_of_mixers() {
    assert!(MixerShape::new(2, 4, 2, 2, 2).is_some());
    assert!(MixerShape::new(2, 5, 2, 2, 2).is_none());
    assert!(MixerShape::new(2, 4, 2, 2, 0).is_none());
    assert!(MixerShape::new(2, 4, 2, 2, 3).is_none());
    assert!(MixerShape::new(2, 4, usize::MAX, 2, 2).is_none());
}

#[test]
fn heads_are_repeated_in_a_row() {
    // Two rows of two heads of two elements.
    let x = [1, 2, 3, 4, 5, 6, 7, 8];
    assert_eq!(
        repeat_axis1(&x, 2, 2),
        vec![1, 2, 1, 2, 3, 4, 3, 4, 5, 6, 5, 6, 7, 8, 7, 8]
    );
    assert_eq!(repeat_axis1(&x, 4, 1), x.to_vec());
    assert!(repeat_axis1(&x, 4, 0).is_empty());
    assert_eq!(kv_repeats(8, 2), 4);
}

#[test]
fn groups_share_the_channels() {
    assert_eq!(group_channels(8, 2), Some(4));
    assert_eq!(group_channels(8, 3), None);
    assert_eq!(group_channels(8, 0), None);
    assert_eq!(group_channels(0, 3), Some(0));
}
