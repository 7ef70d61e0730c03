//! Kernel launches: grids, checks of sizes, and kernel seeds.

use vstd::prelude::*;

use crate::kernels::N_VALUES_PER_THREAD;
use crate::noise::{wrapping_product, wrapping_product_of};
use crate::split::parts;

verus! {

/// Threads per block of the element-wise kernels.
pub const BLOCK: u32 = 256;

/// The number of blocks that cover `threads` threads.
pub fn grid_size(threads: u32) -> (blocks: u32)
    ensures
        blocks == parts(threads as int, BLOCK as int),
        threads <= blocks * BLOCK < threads + BLOCK,
{
    ((threads as u64 + 255) / 256) as u32
}

/// The number of threads of a normal-noise launch: one per 128 elements; none where that leaves a
/// remainder or there are too many.
pub fn noise_threads(elems: usize) -> (threads: Option<u32>)
    ensures
        match threads {
            Some(n) => n * N_VALUES_PER_THREAD == elems,
            None => elems as int % 128 != 0 || elems as int / 128 > u32::MAX,
        },
{
    if elems % N_VALUES_PER_THREAD != 0 {
        return None;
    }
    let threads: usize = elems / N_VALUES_PER_THREAD;
    if threads as u64 > u32::MAX as u64 {
        return None;
    }
    Some(threads as u32)
}

/// Why a kernel cannot be launched.
#[derive(Clone, Copy, Debug, PartialEq, Eq, Structural)]
pub enum LaunchError {
    /// There are no elements, or more than a launch can address.
    Total,
    /// There are more time steps than the kernel can do.
    Steps,
    /// The operands' shapes do not fit each other.
    Shape,
    /// The stacked columns do not fit a tile, or there are no rows.
    Columns,
}

/// The most time steps of the Poisson kernel.
pub const MAX_STEPS: usize = 8;

/// The number of elements of a frame, if a launch can address them.
pub fn frame_total(rows: usize, cols: usize) -> (r: Result<u32, LaunchError>)
    ensures
        match r {
            Ok(total) => total == rows * cols && 0 < total,
            Err(e) => e == LaunchError::Total && (rows * cols == 0 || rows * cols > u32::MAX),
        },
{
    match rows.checked_mul(cols) {
        None => Err(LaunchError::Total),
        Some(total) => {
            if total == 0 || total as u64 > u32::MAX as u64 {
                Err(LaunchError::Total)
            } else {
                Ok(total as u32)
            }
        },
    }
}

/// The number of elements of a frame of a Poisson launch, if the kernel can do `t` steps.
pub fn poisson_total(rows: usize, cols: usize, t: usize) -> (r: Result<u32, LaunchError>)
    ensures
        match r {
            Ok(total) => total == rows * cols && 0 < total && t <= MAX_STEPS,
            Err(LaunchError::Total) => rows * cols == 0 || rows * cols > u32::MAX,
            Err(LaunchError::Steps) => 0 < rows * cols <= u32::MAX && t > MAX_STEPS,
            Err(_) => false,
        },
{
    match frame_total(rows, cols) {
        Err(e) => Err(e),
        Ok(total) => {
            if t > MAX_STEPS {
                Err(LaunchError::Steps)
            } else {
                Ok(total)
            }
        },
    }
}

/// The number of rows of a paired einsum, if the operands' shapes fit the kernel: there is a row,
/// at most 256 stacked columns, and both operands have the same pairs and rank.
pub fn einsum_rows(a_dims: [usize; 3], b_dims: [usize; 3]) -> (r: Result<usize, LaunchError>)
    ensures
        match r {
            Ok(k) => k == a_dims@[0] * a_dims@[1] && 0 < k && 2 * a_dims@[2] <= 256 && b_dims@[0]
                == a_dims@[0] && b_dims@[1] == a_dims@[1],
            Err(LaunchError::Columns) => a_dims@[0] * a_dims@[1] == 0 || a_dims@[0] * a_dims@[1]
                > usize::MAX || 2 * a_dims@[2] > 256,
            Err(LaunchError::Shape) => 0 < a_dims@[0] * a_dims@[1] <= usize::MAX && 2 * a_dims@[2]
                <= 256 && (b_dims@[0] != a_dims@[0] || b_dims@[1] != a_dims@[1]),
            Err(_) => false,
        },
{
    match a_dims[0].checked_mul(a_dims[1]) {
        None => Err(LaunchError::Columns),
        Some(k) => {
            if k == 0 || a_dims[2] > 128 {
                Err(LaunchError::Columns)
            } else if b_dims[0] != a_dims[0] || b_dims[1] != a_dims[1] {
                Err(LaunchError::Shape)
            } else {
                Ok(k)
            }
        },
    }
}

/// Rows per slice of a paired einsum launch.
pub const ROWS_PER_SLICE: usize = 2000;

/// The sizes of a product of a transposed matrix with a matrix, as a column-major routine wants
/// them: rows and columns of the result, and the length of the sums.
#[derive(Clone, Copy, Debug, PartialEq, Eq, Structural)]
pub struct GemmSizes {
    /// Rows of the result.
    pub m: usize,
    /// Columns of the result.
    pub n: usize,
    /// Length of the sums.
    pub k: usize,
}

/// The sizes of the product of a transposed `(k, m)` matrix with a `(k, n)` matrix.
pub fn gemm_atb_sizes(a_dims: [usize; 2], b_dims: [usize; 2]) -> (r: Result<GemmSizes, LaunchError>)
    ensures
        match r {
            Ok(s) => a_dims@ == seq![s.k, s.m] && b_dims@ == seq![s.k, s.n],
            Err(e) => e == LaunchError::Shape && a_dims@[0] != b_dims@[0],
        },
{
    if a_dims[0] != b_dims[0] {
        return Err(LaunchError::Shape);
    }
    let s = GemmSizes { m: a_dims[1], n: b_dims[1], k: a_dims[0] };
    proof {
        assert(a_dims@ =~= seq![s.k, s.m]);
        assert(b_dims@ =~= seq![s.k, s.n]);
    }
    Ok(s)
}

/// Where element `(i, j)` of a column-major matrix stands, its columns `ld` apart.
pub open spec fn column_major(i: int, j: int, ld: int) -> int {
    j * ld + i
}

/// Where element `(i, j)` of a row-major matrix stands, its rows `ld` apart.
pub open spec fn row_major(i: int, j: int, ld: int) -> int {
    i * ld + j
}

/// A column-major result read row by row is its transpose: the `(n, m)` buffer that receives an
/// `(m, n)` result holds element `(i, j)` at row `j`, column `i`. So is a row-major operand read
/// column by column.
pub proof fn layouts_are_transposed(i: int, j: int, ld: int)
    ensures
        column_major(i, j, ld) == row_major(j, i, ld),
{
}

// ---------------------------------------------------------------------------
// Seeds
// ---------------------------------------------------------------------------
/// The step of the launch counter.
pub const COUNTER_STEP: u64 = 0x9e37_79b9_7f4a_7c15;

/// A word, mixed.
pub open spec fn mixed_word(x: u64) -> u32 {
    let a = x ^ (x >> 30);
    let b = wrapping_product(a, 0xbf58_476d_1ce4_e5b9);
    let c = b ^ (b >> 27);
    let d = wrapping_product(c, 0x94d0_49bb_1331_11eb);
    ((d ^ (d >> 31)) % 0x1_0000_0000) as u32
}

fn mix(x: u64) -> (w: u32)
    ensures
        w == mixed_word(x),
{
    let mut h: u64 = x ^ (x >> 30);
    h = wrapping_product_of(h, 0xbf58_476d_1ce4_e5b9);
    h = h ^ (h >> 27);
    h = wrapping_product_of(h, 0x94d0_49bb_1331_11eb);
    h = h ^ (h >> 31);
    (h % 0x1_0000_0000) as u32
}

/// The seeds of a launch: the halves of a launch counter and of a time stamp, mixed.
pub fn next_seeds(counter: u64, nanos: u64) -> (seeds: [u32; 4])
    ensures
        seeds@ == seq![
            mixed_word(counter),
            mixed_word(counter / 0x1_0000_0000),
            mixed_word(nanos),
            mixed_word(nanos / 0x1_0000_0000),
        ],
{
    let seeds: [u32; 4] = [
        mix(counter),
        mix(counter / 0x1_0000_0000),
        mix(nanos),
        mix(nanos / 0x1_0000_0000),
    ];
    proof {
        assert(seeds@ =~= seq![
            mixed_word(counter),
            mixed_word(counter / 0x1_0000_0000),
            mixed_word(nanos),
            mixed_word(nanos / 0x1_0000_0000),
        ]);
    }
    seeds
}

/// The kernel text as a driver wants it: ended by a zero byte.
pub fn nul_terminated(text: &[u8]) -> (out: Vec<u8>)
    ensures
        out@ == text@.push(0),
{
    let mut out: Vec<u8> = Vec::with_capacity(text.len());
    let mut i: usize = 0;
    while i < text.len()
        invariant
            i <= text@.len(),
            out@ == text@.take(i as int),
        decreases text@.len() - i,
    {
        out.push(text[i]);
        i = i + 1;
        proof {
            assert(out@ =~= text@.take(i as int));
        }
    }
    out.push(0);
    proof {
        assert(text@.take(i as int) =~= text@);
    }
    out
}

} // verus!
