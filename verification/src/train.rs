//! Training plans: keys, shuffles, chunks, patches and synthetic data.

use vstd::arithmetic::div_mod::*;
use vstd::prelude::*;

use crate::noise::{recovered, stepped, unit_of, wrapping_product, wrapping_product_of};
use crate::prng::next_xorshift64;
use crate::single::{round_single, rounded, rounding_error, spacing_bounds};

verus! {

/// The multiplier of parameter keys.
pub const KEY_MUL: u64 = 0x9E37_79B9_7F4A_7C15;

// ---------------------------------------------------------------------------
// Keys
// ---------------------------------------------------------------------------
/// The key of parameter `i`.
pub open spec fn param_key(i: int) -> u64 {
    wrapping_product((i + 1) as u64, KEY_MUL)
}

/// One key per parameter.
pub fn base_keys(n: usize) -> (keys: Vec<u64>)
    ensures
        keys@ == Seq::new(n as nat, |i: int| param_key(i)),
{
    let mut keys: Vec<u64> = Vec::with_capacity(n);
    let mut i: usize = 0;
    while i < n
        invariant
            i <= n,
            keys@ == Seq::new(i as nat, |k: int| param_key(k)),
        decreases n - i,
    {
        keys.push(wrapping_product_of(i as u64 + 1, KEY_MUL));
        i = i + 1;
        proof {
            assert(keys@ =~= Seq::new(i as nat, |k: int| param_key(k)));
        }
    }
    keys
}

/// The keys of different parameters differ.
pub proof fn param_keys_are_distinct(i: int, j: int)
    requires
        0 <= i < 0xffff_ffff_ffff_ffff,
        0 <= j < 0xffff_ffff_ffff_ffff,
        param_key(i) == param_key(j),
    ensures
        i == j,
{
    let m: int = 0x1_0000_0000_0000_0000;
    let k: int = KEY_MUL as int;
    // The inverse of the multiplier modulo 2^64.
    let inv: int = 0xF1DE_83E1_9937_733D;
    assert(k * inv % m == 1) by (nonlinear_arith)
        requires
            k == 0x9E37_79B9_7F4A_7C15,
            inv == 0xF1DE_83E1_9937_733D,
            m == 0x1_0000_0000_0000_0000,
    ;
    recovered(i + 1, k, inv, m);
    recovered(j + 1, k, inv, m);
}

/// The key of the first parameter with these dimensions; zero where none has them.
pub fn key_of_dims(dim_keys: &[([usize; 2], u64)], dims: [usize; 2]) -> (key: u64)
    ensures
        key == (match first_with_dims(dim_keys@, dims, 0) {
            Some(i) => dim_keys@[i].1,
            None => 0,
        }),
{
    match position_of_dims(dim_keys, dims) {
        Some(i) => dim_keys[i].1,
        None => 0,
    }
}

/// The first index from `from` whose dimensions are `dims`.
pub open spec fn first_with_dims(
    dim_keys: Seq<([usize; 2], u64)>,
    dims: [usize; 2],
    from: int,
) -> Option<int>
    decreases dim_keys.len() - from,
{
    if from < 0 || from >= dim_keys.len() {
        None
    } else if dim_keys[from].0@ == dims@ {
        Some(from)
    } else {
        first_with_dims(dim_keys, dims, from + 1)
    }
}

/// The position of the first parameter with these dimensions.
pub fn position_of_dims(dim_keys: &[([usize; 2], u64)], dims: [usize; 2]) -> (pos: Option<usize>)
    ensures
        match pos {
            Some(i) => first_with_dims(dim_keys@, dims, 0) == Some(i as int) && i
                < dim_keys@.len(),
            None => first_with_dims(dim_keys@, dims, 0) is None,
        },
{
    let mut i: usize = 0;
    while i < dim_keys.len()
        invariant
            i <= dim_keys@.len(),
            first_with_dims(dim_keys@, dims, 0) == first_with_dims(dim_keys@, dims, i as int),
        decreases dim_keys@.len() - i,
    {
        let found: [usize; 2] = dim_keys[i].0;
        if found[0] == dims[0] && found[1] == dims[1] {
            proof {
                assert(found@ =~= dims@);
            }
            return Some(i);
        }
        i = i + 1;
    }
    None
}

// ---------------------------------------------------------------------------
// Shuffles
// ---------------------------------------------------------------------------
/// The first state of a shuffle.
pub open spec fn shuffle_state(seed: u64) -> u64 {
    (seed ^ KEY_MUL) | 1
}

/// The random word of swap `i`.
pub open spec fn shuffle_word(seed: u64, i: nat) -> u64 {
    wrapping_product(stepped(shuffle_state(seed), i + 1), 0x2545_F491_4F6C_DD1D)
}

/// The position that position `i` of `n` is swapped with: itself or one behind it.
pub open spec fn swap_target(n: int, seed: u64, i: nat) -> int {
    i + shuffle_word(seed, i) as int % (n - i)
}

/// The numbers zero to `n` after the first `count` swaps.
pub open spec fn shuffled(n: nat, seed: u64, count: nat) -> Seq<usize>
    decreases count,
{
    if count == 0 {
        Seq::new(n, |i: int| i as usize)
    } else {
        let before = shuffled(n, seed, (count - 1) as nat);
        let i = count - 1;
        let j = swap_target(n as int, seed, i as nat);
        before.update(i, before[j]).update(j, before[i])
    }
}

/// A shuffle loses and repeats nothing: its entries are below `n` and all different.
pub proof fn shuffle_is_permutation(n: nat, seed: u64, count: nat)
    requires
        count <= n <= usize::MAX,
    ensures
        shuffled(n, seed, count).len() == n,
        forall|i: int| 0 <= i < n ==> #[trigger] shuffled(n, seed, count)[i] < n,
        forall|i: int, j: int|
            0 <= i < j < n ==> #[trigger] shuffled(n, seed, count)[i] != #[trigger] shuffled(
                n,
                seed,
                count,
            )[j],
    decreases count,
{
    if count > 0 {
        shuffle_is_permutation(n, seed, (count - 1) as nat);
        lemma_mod_bound(shuffle_word(seed, (count - 1) as nat) as int, n - (count - 1));
    }
}

/// Deterministic partial Fisher-Yates shuffle: `count` of the numbers below `n`, all different.
pub fn shuffled_indices(n: usize, count: usize, seed: u64) -> (idx: Vec<usize>)
    requires
        count <= n,
    ensures
        idx@ == shuffled(n as nat, seed, count as nat).take(count as int),
        idx@.len() == count,
        forall|i: int| 0 <= i < count ==> #[trigger] idx@[i] < n,
        forall|i: int, j: int| 0 <= i < j < count ==> #[trigger] idx@[i] != #[trigger] idx@[j],
{
    let mut idx: Vec<usize> = Vec::with_capacity(n);
    let mut k: usize = 0;
    while k < n
        invariant
            k <= n,
            idx@.len() == k,
            forall|i: int| 0 <= i < k ==> #[trigger] idx@[i] == i,
        decreases n - k,
    {
        idx.push(k);
        k = k + 1;
    }
    let mut state: u64 = (seed ^ KEY_MUL) | 1;
    let mut i: usize = 0;
    proof {
        assert(idx@ =~= shuffled(n as nat, seed, 0));
    }
    while i < count
        invariant
            i <= count <= n,
            idx@.len() == n,
            state == stepped(shuffle_state(seed), i as nat),
            idx@ == shuffled(n as nat, seed, i as nat),
        decreases count - i,
    {
        state = next_xorshift64(state);
        let word: u64 = wrapping_product_of(state, 0x2545_F491_4F6C_DD1D);
        let left: u64 = (n - i) as u64;
        proof {
            lemma_mod_bound(word as int, left as int);
        }
        let j: usize = i + (word % left) as usize;
        let x: usize = idx[i];
        let y: usize = idx[j];
        idx.set(i, y);
        idx.set(j, x);
        proof {
            assert(idx@ =~= shuffled(n as nat, seed, (i + 1) as nat));
        }
        i = i + 1;
    }
    proof {
        shuffle_is_permutation(n as nat, seed, count as nat);
    }
    idx.truncate(count);
    proof {
        assert(idx@ =~= shuffled(n as nat, seed, count as nat).take(count as int));
    }
    idx
}

/// The seed of an epoch's shuffle.
pub fn epoch_seed(seed: u64, epoch: u64) -> (s: u64)
    requires
        epoch < u64::MAX,
    ensures
        s == seed ^ wrapping_product((epoch + 1) as u64, KEY_MUL),
{
    seed ^ wrapping_product_of(epoch + 1, KEY_MUL)
}

/// The seed of the shuffle of an evaluation.
pub fn evaluation_seed(seed: u64) -> (s: u64)
    ensures
        s == wrapping_product(seed, KEY_MUL),
{
    wrapping_product_of(seed, KEY_MUL)
}

/// Different epochs are shuffled with different seeds.
pub proof fn epoch_seeds_differ(seed: u64, e1: u64, e2: u64)
    requires
        e1 < u64::MAX,
        e2 < u64::MAX,
        e1 != e2,
    ensures
        seed ^ param_key(e1 as int) != seed ^ param_key(e2 as int),
{
    let (a, b) = (param_key(e1 as int), param_key(e2 as int));
    assert(a != b ==> seed ^ a != seed ^ b) by (bit_vector);
    if a == b {
        param_keys_are_distinct(e1 as int, e2 as int);
    }
}

// ---------------------------------------------------------------------------
// Chunks
// ---------------------------------------------------------------------------
/// Why a batch cannot be worked off in chunks.
#[derive(Clone, Copy, Debug, PartialEq, Eq, Structural)]
pub enum ChunkError {
    /// The number of chunks is zero or does not divide the batch.
    NotDivisible,
    /// A chunk has an odd number of samples.
    OddChunk,
}

/// The size of the chunks of a batch; with `paired`, an even size.
pub fn chunk_size(batch: usize, accumulate: usize, paired: bool) -> (r: Result<usize, ChunkError>)
    ensures
        match r {
            Ok(chunk) => accumulate > 0 && chunk * accumulate == batch && (paired ==> chunk % 2
                == 0),
            Err(ChunkError::NotDivisible) => accumulate == 0 || batch as int % accumulate as int
                != 0,
            Err(ChunkError::OddChunk) => accumulate > 0 && batch as int % accumulate as int == 0
                && paired && batch as int / accumulate as int % 2 == 1,
        },
{
    if accumulate == 0 || batch % accumulate != 0 {
        return Err(ChunkError::NotDivisible);
    }
    let chunk: usize = batch / accumulate;
    proof {
        lemma_fundamental_div_mod(batch as int, accumulate as int);
        assert(accumulate * chunk == chunk * accumulate) by (nonlinear_arith);
    }
    if paired && chunk % 2 != 0 {
        return Err(ChunkError::OddChunk);
    }
    Ok(chunk)
}

/// The most samples of an equivalence check.
pub const VERIFY_LIMIT: usize = 1024;

/// The batch of an equivalence check: at most the limit, and a multiple of `k`, at least `k`
/// unless `k` divides it already.
pub open spec fn verify_size(batch: int, k: int) -> int {
    let vb = if batch < VERIFY_LIMIT {
        batch
    } else {
        VERIFY_LIMIT as int
    };
    if vb % k == 0 {
        vb
    } else if vb / k < 1 {
        k
    } else {
        vb / k * k
    }
}

/// The batch, the number of chunks and the size of a chunk of an equivalence check; none where a
/// chunk would be empty or fewer samples than that are available.
pub fn verify_plan(batch: usize, accumulate: usize, available: usize) -> (plan: Option<
    (usize, usize, usize),
>)
    ensures
        ({
            let k = if accumulate == 0 {
                1
            } else {
                accumulate as int
            };
            let vb = verify_size(batch as int, k);
            match plan {
                Some((size, chunks, chunk)) => {
                    &&& size == vb
                    &&& chunks == k
                    &&& chunk * chunks == size
                    &&& 1 <= chunk
                    &&& size <= available
                },
                None => vb < k || vb > available,
            }
        }),
{
    let k: usize = if accumulate == 0 {
        1
    } else {
        accumulate
    };
    let mut vb: usize = if batch < VERIFY_LIMIT {
        batch
    } else {
        VERIFY_LIMIT
    };
    proof {
        lemma_fundamental_div_mod(vb as int, k as int);
        let q = vb as int / k as int;
        assert(q * k == k * q) by (nonlinear_arith);
        if q >= 1 {
            assert(q * k >= k) by (nonlinear_arith)
                requires
                    q >= 1,
                    k >= 1,
            ;
        }
        lemma_fundamental_div_mod_converse(q * k, k as int, q, 0);
        lemma_fundamental_div_mod_converse(k as int, k as int, 1, 0);
    }
    if vb % k != 0 {
        let q: usize = vb / k;
        if q < 1 {
            vb = k;
        } else {
            vb = q * k;
        }
    }
    let chunk: usize = vb / k;
    proof {
        lemma_fundamental_div_mod(vb as int, k as int);
        assert(k * chunk == chunk * k) by (nonlinear_arith);
        if chunk >= 1 {
            assert(chunk * k >= k) by (nonlinear_arith)
                requires
                    chunk >= 1,
                    k >= 1,
            ;
        } else {
            assert(chunk * k == 0) by (nonlinear_arith)
                requires
                    chunk == 0,
            ;
        }
    }
    if chunk < 1 || vb > available {
        return None;
    }
    Some((vb, k, chunk))
}

/// What an equivalence check finds.
#[derive(Clone, Copy, Debug, PartialEq, Eq, Structural)]
pub enum Verdict {
    /// Accumulation equals the single batch, and the control does not.
    Pass,
    /// Accumulated forward passes differ from the single batch.
    ForwardDiffers,
    /// Accumulated updates differ from the single batch.
    UpdateDiffers,
    /// The control, which normalises each chunk by itself, does not differ.
    ControlAgrees,
}

/// Judges an equivalence check by which of the three paths are far from the single batch.
pub fn judge(forward_far: bool, update_far: bool, control_far: bool) -> (v: Verdict)
    ensures
        v == (if forward_far {
            Verdict::ForwardDiffers
        } else if update_far {
            Verdict::UpdateDiffers
        } else if !control_far {
            Verdict::ControlAgrees
        } else {
            Verdict::Pass
        }),
{
    if forward_far {
        Verdict::ForwardDiffers
    } else if update_far {
        Verdict::UpdateDiffers
    } else if !control_far {
        Verdict::ControlAgrees
    } else {
        Verdict::Pass
    }
}

/// Whether an epoch is one of every `every`.
pub fn is_due(epoch: usize, every: usize) -> (due: bool)
    requires
        every > 0,
    ensures
        due == (epoch as int % every as int == 0),
{
    epoch % every == 0
}

/// Whether an epoch is logged: one of every `every`, and the last.
pub fn is_logged(epoch: usize, every: usize, num_epochs: usize) -> (logged: bool)
    requires
        every > 0,
        epoch < num_epochs,
    ensures
        logged == (epoch as int % every as int == 0 || epoch == num_epochs - 1),
{
    epoch % every == 0 || epoch == num_epochs - 1
}

// ---------------------------------------------------------------------------
// Patches
// ---------------------------------------------------------------------------
/// The side of an image.
pub const IMAGE_SIDE: usize = 28;

/// The side of a patch.
pub const PATCH_PX: usize = 7;

/// The number of patches of an image.
pub const NUM_TOKENS: usize = 16;

/// The number of pixels of a patch.
pub const TOKEN_DIM: usize = 49;

/// The number of pixels of an image.
pub const IN_DIM: usize = 784;

/// The pixel of an image that stands at index `q` of its patches: patches row by row, the pixels
/// of a patch row by row.
pub open spec fn patch_source(q: int) -> int {
    let (token, within) = (q / 49, q % 49);
    (token / 4 * 7 + within / 7) * 28 + (token % 4 * 7 + within % 7)
}

/// The index among the patches of an image at which a pixel stands.
pub open spec fn patch_target(pixel: int) -> int {
    let (row, col) = (pixel / 28, pixel % 28);
    (row / 7 * 4 + col / 7) * 49 + (row % 7 * 7 + col % 7)
}

/// Patching moves every pixel to exactly one place.
pub proof fn patching_is_a_bijection(q: int)
    requires
        0 <= q < IN_DIM,
    ensures
        0 <= patch_source(q) < IN_DIM,
        0 <= patch_target(q) < IN_DIM,
        patch_target(patch_source(q)) == q,
        patch_source(patch_target(q)) == q,
{
    regroup(q / 49, q % 49, 4, 7);
    regroup(q / 28, q % 28, 7, 4);
}

/// Two numbers of two digits each, with one digit exchanged.
proof fn regroup(x: int, y: int, p: int, m: int)
    requires
        (p == 4 && m == 7 && 0 <= x < 16 && 0 <= y < 49) || (p == 7 && m == 4 && 0 <= x < 28 && 0
            <= y < 28),
    ensures
        p == 4 ==> ({
            let (row, col) = (x / 4 * 7 + y / 7, x % 4 * 7 + y % 7);
            let z = row * 28 + col;
            &&& 0 <= z < 784
            &&& z / 28 == row
            &&& z % 28 == col
            &&& row / 7 == x / 4
            &&& row % 7 == y / 7
            &&& col / 7 == x % 4
            &&& col % 7 == y % 7
            &&& (x / 4 * 4 + x % 4) * 49 + (y / 7 * 7 + y % 7) == x * 49 + y
        }),
        p == 7 ==> ({
            let (token, within) = (x / 7 * 4 + y / 7, x % 7 * 7 + y % 7);
            let z = token * 49 + within;
            &&& 0 <= z < 784
            &&& z / 49 == token
            &&& z % 49 == within
            &&& token / 4 == x / 7
            &&& token % 4 == y / 7
            &&& within / 7 == x % 7
            &&& within % 7 == y % 7
            &&& (x / 7 * 7 + x % 7) * 28 + (y / 7 * 7 + y % 7) == x * 28 + y
        }),
{
    if p == 4 {
        let (a, b, c, d) = (x / 4, x % 4, y / 7, y % 7);
        assert(0 <= a < 4 && 0 <= b < 4 && 0 <= c < 7 && 0 <= d < 7);
        let (row, col) = (a * 7 + c, b * 7 + d);
        lemma_fundamental_div_mod_converse(row * 28 + col, 28, row, col);
        lemma_fundamental_div_mod_converse(row, 7, a, c);
        lemma_fundamental_div_mod_converse(col, 7, b, d);
    } else {
        let (a, b, c, d) = (x / 7, x % 7, y / 7, y % 7);
        assert(0 <= a < 4 && 0 <= b < 7 && 0 <= c < 4 && 0 <= d < 7);
        let (token, within) = (a * 4 + c, b * 7 + d);
        lemma_fundamental_div_mod_converse(token * 49 + within, 49, token, within);
        lemma_fundamental_div_mod_converse(token, 4, a, c);
        lemma_fundamental_div_mod_converse(within, 7, b, d);
    }
}

/// The pixel of an image that stands at index `q` of its patches.
pub fn patch_pixel(q: usize) -> (pixel: usize)
    requires
        q < IN_DIM,
    ensures
        pixel == patch_source(q as int),
        pixel < IN_DIM,
{
    proof {
        patching_is_a_bijection(q as int);
    }
    let token: usize = q / 49;
    let within: usize = q % 49;
    (token / 4 * 7 + within / 7) * 28 + (token % 4 * 7 + within % 7)
}

/// Cuts each image into patches, and lays the patches out one behind the other.
pub fn patch_images<T: Copy>(imgs: &[T], images: usize) -> (out: Vec<T>)
    requires
        imgs@.len() == images * IN_DIM,
    ensures
        out@ == Seq::new(
            imgs@.len(),
            |j: int| imgs@[j / 784 * 784 + patch_source(j % 784)],
        ),
{
    let n: usize = imgs.len();
    let mut out: Vec<T> = Vec::with_capacity(n);
    let mut j: usize = 0;
    while j < n
        invariant
            n == imgs@.len() == images * 784,
            j <= n,
            out@.len() == j,
            forall|i: int|
                0 <= i < j ==> #[trigger] out@[i] == imgs@[i / 784 * 784 + patch_source(i % 784)],
        decreases n - j,
    {
        let source: usize = patch_pixel(j % 784);
        proof {
            assert(j as int / 784 * 784 + 784 <= n);
        }
        out.push(imgs[j / 784 * 784 + source]);
        j = j + 1;
    }
    proof {
        assert(out@ =~= Seq::new(
            imgs@.len(),
            |j: int| imgs@[j / 784 * 784 + patch_source(j % 784)],
        ));
    }
    out
}

// ---------------------------------------------------------------------------
// Synthetic data
// ---------------------------------------------------------------------------
/// The first state of the generator of synthetic data.
pub const SYNTHETIC_SEED: u64 = 0x1234_5678_9ABC_DEF0;

/// The numerator, over 2^25, of the share of noise in a pixel: three tenths in single precision.
pub const NOISE_SHARE: u64 = 10066330;

/// The denominator of pixels, 2^49.
pub const PIXEL_ONE: u64 = 0x2_0000_0000_0000;

/// The draws that synthetic data is made of: class prototypes, a class per image, and noise.
pub struct SyntheticDraws {
    /// The numerators, over 2^24, of the prototypes' pixels.
    pub proto: Vec<u32>,
    /// The class whose prototype each image is made of.
    pub drawn: Vec<i32>,
    /// The numerators, over 2^24, of the noise of each image's pixels.
    pub noise: Vec<u32>,
}

/// Synthetic images and their labels.
pub struct SyntheticData {
    /// The numerators, over 2^49, of the images' pixels.
    pub images: Vec<u64>,
    /// The class whose prototype each image most resembles.
    pub labels: Vec<i32>,
}

/// The state of the generator after `n` draws.
pub open spec fn synthetic_state(n: int) -> u64 {
    stepped(SYNTHETIC_SEED, n as nat)
}

/// How many draws come before those of image `i`: the prototypes, then for each image its class
/// and its noise.
pub open spec fn draws_before(i: int, classes: int, dim: int) -> int {
    classes * dim + i * (dim + 1)
}

/// The numerator, over 2^24, of pixel `k` of all prototypes.
pub open spec fn proto_at(k: int) -> u32 {
    unit_of(synthetic_state(k + 1))
}

/// The class whose prototype image `i` is made of.
pub open spec fn drawn_class(i: int, classes: int, dim: int) -> int {
    synthetic_state(draws_before(i, classes, dim) + 1) as int % classes
}

/// The numerator, over 2^24, of the noise of pixel `j` of all images.
pub open spec fn noise_at(j: int, classes: int, dim: int) -> u32 {
    unit_of(synthetic_state(draws_before(j / dim, classes, dim) + 2 + j % dim))
}

/// The numerator, over 2^49, of pixel `j` of all images: the prototype's pixel plus the share of
/// the noise, product and sum of single precision, at most one.
pub open spec fn pixel_at(j: int, classes: int, dim: int) -> int {
    let noise = rounded((noise_at(j, classes, dim) * NOISE_SHARE) as nat);
    let proto = proto_at(drawn_class(j / dim, classes, dim) * dim + j % dim);
    let sum = rounded((proto * 0x200_0000 + noise) as nat);
    if sum < PIXEL_ONE {
        sum as int
    } else {
        PIXEL_ONE as int
    }
}

/// How much the first `n` pixels of image `i` resemble those of the prototype of class `c`: the
/// sum of the products of their pixels.
pub open spec fn resemblance(i: int, c: int, classes: int, dim: int, n: nat) -> int
    decreases n,
{
    if n == 0 {
        0
    } else {
        resemblance(i, c, classes, dim, (n - 1) as nat) + pixel_at(
            i * dim + (n - 1),
            classes,
            dim,
        ) * proto_at(c * dim + (n - 1))
    }
}

/// Whether `label` is the class whose prototype image `i` most resembles, the first of several.
pub open spec fn most_alike(i: int, label: int, classes: int, dim: int) -> bool {
    let n = dim as nat;
    &&& 0 <= label < classes
    &&& forall|c: int|
        0 <= c < classes ==> #[trigger] resemblance(i, c, classes, dim, n) <= resemblance(
            i,
            label,
            classes,
            dim,
            n,
        )
    &&& forall|c: int|
        0 <= c < label ==> #[trigger] resemblance(i, c, classes, dim, n) < resemblance(
            i,
            label,
            classes,
            dim,
            n,
        )
}

/// Draws synthetic data for `num_envs` images of `dim` pixels in `classes` classes.
pub fn synthetic_draws(num_envs: usize, classes: usize, dim: usize) -> (d: SyntheticDraws)
    requires
        0 < classes <= i32::MAX,
        classes * dim <= usize::MAX,
    ensures
        d.proto@.len() == classes * dim,
        forall|k: int|
            0 <= k < d.proto@.len() ==> #[trigger] d.proto@[k] == proto_at(k),
        d.drawn@.len() == num_envs,
        forall|i: int|
            0 <= i < num_envs ==> #[trigger] d.drawn@[i] == drawn_class(
                i,
                classes as int,
                dim as int,
            ),
        d.noise@.len() == num_envs * dim,
        forall|j: int|
            0 <= j < d.noise@.len() ==> #[trigger] d.noise@[j] == noise_at(
                j,
                classes as int,
                dim as int,
            ),
{
    let mut state: u64 = SYNTHETIC_SEED;
    let count: usize = classes * dim;
    let mut proto: Vec<u32> = Vec::with_capacity(count);
    let mut k: usize = 0;
    while k < count
        invariant
            k <= count,
            proto@.len() == k,
            state == synthetic_state(k as int),
            forall|q: int| 0 <= q < k ==> #[trigger] proto@[q] == proto_at(q),
        decreases count - k,
    {
        state = next_xorshift64(state);
        proto.push((state / 0x100_0000_0000) as u32);
        k = k + 1;
    }
    let ghost c = classes as int;
    let ghost d = dim as int;
    let mut drawn: Vec<i32> = Vec::new();
    let mut noise: Vec<u32> = Vec::new();
    let mut i: usize = 0;
    proof {
        assert(0 * (d + 1) == 0);
        assert(0 * d == 0);
    }
    while i < num_envs
        invariant
            c == classes,
            d == dim,
            0 < classes <= i32::MAX,
            i <= num_envs,
            0 <= draws_before(i as int, c, d),
            state == synthetic_state(draws_before(i as int, c, d)),
            drawn@.len() == i,
            noise@.len() == i * d,
            forall|q: int|
                0 <= q < i ==> #[trigger] drawn@[q] == drawn_class(q, c, d),
            forall|j: int|
                0 <= j < noise@.len() ==> #[trigger] noise@[j] == noise_at(j, c, d),
        decreases num_envs - i,
    {
        let ghost base = draws_before(i as int, c, d);
        state = next_xorshift64(state);
        proof {
            lemma_mod_bound(state as int, c);
        }
        drawn.push((state % classes as u64) as i32);
        let mut p: usize = 0;
        while p < dim
            invariant
                c == classes,
                d == dim,
                i < num_envs,
                p <= dim,
                base == draws_before(i as int, c, d),
                0 <= base,
                state == synthetic_state(base + 1 + p),
                noise@.len() == i * d + p,
                forall|j: int|
                    0 <= j < noise@.len() ==> #[trigger] noise@[j] == noise_at(j, c, d),
            decreases dim - p,
        {
            state = next_xorshift64(state);
            proof {
                lemma_fundamental_div_mod_converse(i * d + p, d, i as int, p as int);
            }
            noise.push((state / 0x100_0000_0000) as u32);
            p = p + 1;
        }
        proof {
            assert((i + 1) * d == i * d + d) by (nonlinear_arith);
            assert((i + 1) * (d + 1) == i * (d + 1) + (d + 1)) by (nonlinear_arith);
        }
        i = i + 1;
    }
    SyntheticDraws { proto, drawn, noise }
}

/// The pixels of the images.
fn synthetic_images(draws: &SyntheticDraws, num_envs: usize, classes: usize, dim: usize) -> (images:
    Vec<u64>)
    requires
        0 < classes <= i32::MAX,
        classes * dim <= usize::MAX,
        draws.proto@.len() == classes * dim,
        forall|k: int|
            0 <= k < draws.proto@.len() ==> #[trigger] draws.proto@[k] == proto_at(k),
        draws.drawn@.len() == num_envs,
        forall|i: int|
            0 <= i < num_envs ==> #[trigger] draws.drawn@[i] == drawn_class(
                i,
                classes as int,
                dim as int,
            ),
        draws.noise@.len() == num_envs * dim,
        forall|j: int|
            0 <= j < draws.noise@.len() ==> #[trigger] draws.noise@[j] == noise_at(
                j,
                classes as int,
                dim as int,
            ),
    ensures
        images@ == Seq::new(
            (num_envs * dim) as nat,
            |j: int| pixel_at(j, classes as int, dim as int) as u64,
        ),
{
    let ghost c = classes as int;
    let ghost d = dim as int;
    let mut images: Vec<u64> = Vec::with_capacity(draws.noise.len());
    let total: usize = draws.noise.len();
    let mut j: usize = 0;
    while j < total
        invariant
            c == classes,
            d == dim,
            0 < classes <= i32::MAX,
            classes * dim <= usize::MAX,
            draws.proto@.len() == c * d,
            forall|k: int|
                0 <= k < draws.proto@.len() ==> #[trigger] draws.proto@[k] == proto_at(k),
            draws.drawn@.len() == num_envs,
            forall|i: int|
                0 <= i < num_envs ==> #[trigger] draws.drawn@[i] == drawn_class(i, c, d),
            total == draws.noise@.len() == num_envs * dim,
            forall|q: int|
                0 <= q < draws.noise@.len() ==> #[trigger] draws.noise@[q] == noise_at(q, c, d),
            j <= total,
            images@.len() == j,
            forall|q: int| 0 <= q < j ==> #[trigger] images@[q] == pixel_at(q, c, d) as u64,
        decreases total - j,
    {
        proof {
            pixel_within(j as int, num_envs as int, d);
            lemma_mod_bound(
                synthetic_state(draws_before(j as int / d, c, d) + 1) as int,
                c,
            );
            row_within(drawn_class(j as int / d, c, d), c, d);
        }
        let class: usize = draws.drawn[j / dim] as usize;
        let base: usize = class * dim;
        let proto: u32 = draws.proto[base + j % dim];
        let noise: u64 = draws.noise[j] as u64 * NOISE_SHARE;
        proof {
            rounding_error(noise as nat);
            spacing_bounds(noise as nat);
        }
        let sum: u64 = round_single(proto as u64 * 0x200_0000 + round_single(noise));
        images.push(
            if sum < PIXEL_ONE {
                sum
            } else {
                PIXEL_ONE
            },
        );
        j = j + 1;
    }
    proof {
        assert(images@ =~= Seq::new((num_envs * dim) as nat, |j: int| pixel_at(j, c, d) as u64));
    }
    images
}

/// A pixel of `n` images of `d` pixels belongs to one of them.
proof fn pixel_within(j: int, n: int, d: int)
    requires
        0 <= j < n * d,
        0 <= n,
        0 <= d,
    ensures
        0 < d,
        0 <= j / d < n,
        0 <= j % d < d,
{
    assert(0 < d) by (nonlinear_arith)
        requires
            0 < n * d,
            0 <= d,
    ;
    assert(0 <= j / d < n) by (nonlinear_arith)
        requires
            0 <= j < n * d,
            0 < d,
    ;
    lemma_mod_bound(j, d);
}

/// Row `i` of `n` rows of `d` elements lies within them.
proof fn row_within(i: int, n: int, d: int)
    requires
        0 <= i < n,
        0 <= d,
    ensures
        0 <= i * d,
        i * d + d <= n * d,
{
    assert(0 <= i * d && i * d + d <= n * d) by (nonlinear_arith)
        requires
            0 <= i < n,
            0 <= d,
    ;
}

/// How much an image resembles the prototype of a class.
fn resemblance_of(
    images: &Vec<u64>,
    proto: &Vec<u32>,
    i: usize,
    class: usize,
    num_envs: usize,
    classes: usize,
    dim: usize,
) -> (sum: u128)
    requires
        i < num_envs,
        class < classes,
        dim <= 0x40_0000_0000_0000,
        proto@.len() == classes * dim,
        forall|k: int| 0 <= k < proto@.len() ==> #[trigger] proto@[k] == proto_at(k),
        images@ == Seq::new(
            (num_envs * dim) as nat,
            |j: int| pixel_at(j, classes as int, dim as int) as u64,
        ),
    ensures
        sum == resemblance(i as int, class as int, classes as int, dim as int, dim as nat),
{
    let ghost c = classes as int;
    let ghost d = dim as int;
    proof {
        row_within(i as int, num_envs as int, d);
        row_within(class as int, c, d);
    }
    let pixels: usize = images.len();
    let parts: usize = proto.len();
    let image: usize = i * dim;
    let row: usize = class * dim;
    let mut sum: u128 = 0;
    let mut p: usize = 0;
    while p < dim
        invariant
            c == classes,
            d == dim,
            image == i * dim,
            row == class * dim,
            image + dim <= pixels == images@.len(),
            row + dim <= parts == proto@.len(),
            forall|k: int| 0 <= k < proto@.len() ==> #[trigger] proto@[k] == proto_at(k),
            images@ == Seq::new((num_envs * dim) as nat, |j: int| pixel_at(j, c, d) as u64),
            p <= dim,
            sum == resemblance(i as int, class as int, c, d, p as nat),
            dim <= 0x40_0000_0000_0000,
            sum <= p * 0x200_0000_0000_0000_0000,
        decreases dim - p,
    {
        let pixel: u64 = images[image + p];
        let part: u32 = proto[row + p];
        proof {
            assert(pixel as int * part as int <= 0x200_0000_0000_0000_0000) by (nonlinear_arith)
                requires
                    0 <= pixel <= 0x2_0000_0000_0000,
                    0 <= part < 0x100_0000,
            ;
            assert(0 <= pixel as int * part as int) by (nonlinear_arith)
                requires
                    0 <= pixel,
                    0 <= part,
            ;
        }
        sum = sum + pixel as u128 * part as u128;
        p = p + 1;
    }
    sum
}

/// The class whose prototype an image most resembles.
fn label_of(
    images: &Vec<u64>,
    proto: &Vec<u32>,
    i: usize,
    num_envs: usize,
    classes: usize,
    dim: usize,
) -> (label: usize)
    requires
        i < num_envs,
        0 < classes,
        dim <= 0x40_0000_0000_0000,
        proto@.len() == classes * dim,
        forall|k: int| 0 <= k < proto@.len() ==> #[trigger] proto@[k] == proto_at(k),
        images@ == Seq::new(
            (num_envs * dim) as nat,
            |j: int| pixel_at(j, classes as int, dim as int) as u64,
        ),
    ensures
        most_alike(i as int, label as int, classes as int, dim as int),
{
    let ghost (c, d, n) = (classes as int, dim as int, dim as nat);
    let mut label: usize = 0;
    let mut best: u128 = resemblance_of(images, proto, i, 0, num_envs, classes, dim);
    let mut class: usize = 1;
    while class < classes
        invariant
            c == classes,
            d == dim,
            n == dim,
            i < num_envs,
            dim <= 0x40_0000_0000_0000,
            proto@.len() == classes * dim,
            forall|k: int| 0 <= k < proto@.len() ==> #[trigger] proto@[k] == proto_at(k),
            images@ == Seq::new((num_envs * dim) as nat, |j: int| pixel_at(j, c, d) as u64),
            0 <= label < class <= classes,
            best == resemblance(i as int, label as int, c, d, n),
            forall|k: int|
                0 <= k < class ==> #[trigger] resemblance(i as int, k, c, d, n) <= best,
            forall|k: int| 0 <= k < label ==> #[trigger] resemblance(i as int, k, c, d, n) < best,
        decreases classes - class,
    {
        let other: u128 = resemblance_of(images, proto, i, class, num_envs, classes, dim);
        if other > best {
            best = other;
            label = class;
        }
        class = class + 1;
    }
    label
}

/// Makes synthetic data: `num_envs` images of `dim` pixels in `classes` classes. An image is the
/// prototype of a class plus noise; its label is the class whose prototype it most resembles.
pub fn synthetic_data(num_envs: usize, classes: usize, dim: usize) -> (data: SyntheticData)
    requires
        0 < classes <= i32::MAX,
        classes * dim <= usize::MAX,
        dim <= 0x40_0000_0000_0000,
    ensures
        data.images@ == Seq::new(
            (num_envs * dim) as nat,
            |j: int| pixel_at(j, classes as int, dim as int) as u64,
        ),
        data.labels@.len() == num_envs,
        forall|i: int|
            0 <= i < num_envs ==> most_alike(
                i,
                #[trigger] data.labels@[i] as int,
                classes as int,
                dim as int,
            ),
{
    let draws: SyntheticDraws = synthetic_draws(num_envs, classes, dim);
    let images: Vec<u64> = synthetic_images(&draws, num_envs, classes, dim);
    let mut labels: Vec<i32> = Vec::with_capacity(num_envs);
    let mut i: usize = 0;
    while i < num_envs
        invariant
            0 < classes <= i32::MAX,
            dim <= 0x40_0000_0000_0000,
            draws.proto@.len() == classes * dim,
            forall|k: int|
                0 <= k < draws.proto@.len() ==> #[trigger] draws.proto@[k] == proto_at(k),
            images@ == Seq::new(
                (num_envs * dim) as nat,
                |j: int| pixel_at(j, classes as int, dim as int) as u64,
            ),
            i <= num_envs,
            labels@.len() == i,
            forall|q: int|
                0 <= q < i ==> most_alike(
                    q,
                    #[trigger] labels@[q] as int,
                    classes as int,
                    dim as int,
                ),
        decreases num_envs - i,
    {
        let label: usize = label_of(&images, &draws.proto, i, num_envs, classes, dim);
        labels.push(label as i32);
        i = i + 1;
    }
    SyntheticData { images, labels }
}

/// Every pixel of synthetic data lies between zero and one.
pub proof fn pixels_are_at_most_one(j: int, classes: int, dim: int)
    ensures
        0 <= pixel_at(j, classes, dim) <= PIXEL_ONE,
{
}

} // verus!
