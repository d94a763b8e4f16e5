//! Tapering weights applied to a frame before the frequency transform.
//!
//! Weights are fixed-point: `WINDOW_SCALE` stands for a weight of one.
//! The shape is a triangular taper — zero at both frame edges, largest at
//! the midpoint, exactly symmetric about it.

use vstd::prelude::*;

verus! {

/// Fixed-point scale of window weights: `WINDOW_SCALE` stands for 1.
pub const WINDOW_SCALE: u64 = 32768;

/// Tapering weight for sample `i` of a frame of length `n`, as a
/// fixed-point fraction of `WINDOW_SCALE`.
pub open spec fn weight_spec(i: int, n: int) -> int {
    let d = if i <= n - i {
        i
    } else {
        n - i
    };
    2 * d * 32768 / n
}

/// The window tapers: every weight lies in `[0, WINDOW_SCALE]`, the weight
/// at the frame edge is zero, and the shape is symmetric about the midpoint.
pub proof fn lemma_weight_shape(i: int, n: int)
    requires
        1 <= n,
        0 <= i <= n,
    ensures
        0 <= weight_spec(i, n) <= WINDOW_SCALE,
        weight_spec(0, n) == 0,
        weight_spec(i, n) == weight_spec(n - i, n),
{
    let d = if i <= n - i {
        i
    } else {
        n - i
    };
    assert(0 <= d && 2 * d <= n);
    assert(0 <= 2 * d * 32768 <= 32768 * n) by (nonlinear_arith)
        requires
            0 <= d && 2 * d <= n,
    ;
    assert(0 <= 2 * d * 32768 / n <= 32768) by (nonlinear_arith)
        requires
            1 <= n,
            0 <= 2 * d * 32768 <= 32768 * n,
    ;
}

/// Weight of sample `i` in a frame of length `n`.
pub fn weight(i: usize, n: usize) -> (r: u64)
    requires
        1 <= n <= 1048576,
        i <= n,
    ensures
        r == weight_spec(i as int, n as int),
        r <= WINDOW_SCALE,
        i == 0 ==> r == 0,
{
    proof {
        lemma_weight_shape(i as int, n as int);
    }
    let d: u64 = if i <= n - i {
        i as u64
    } else {
        (n - i) as u64
    };
    2 * d * 32768 / (n as u64)
}

/// Precomputed window for a frame of length `n`: one weight per sample.
pub fn make_window(n: usize) -> (r: Vec<u64>)
    requires
        1 <= n <= 1048576,
    ensures
        r@.len() == n,
        forall|j: int| 0 <= j < n ==> r@[j] == weight_spec(j, n as int),
        forall|j: int| 0 <= j < n ==> r@[j] <= WINDOW_SCALE,
{
    let mut w: Vec<u64> = Vec::new();
    for j in 0..n
        invariant
            1 <= n <= 1048576,
            w@.len() == j,
            forall|k: int| 0 <= k < j ==> w@[k] == weight_spec(k, n as int),
            forall|k: int| 0 <= k < j ==> w@[k] <= WINDOW_SCALE,
    {
        let wj = weight(j, n);
        w.push(wj);
    }
    w
}

/// One frame of samples, each multiplied by its window weight.
///
/// The products are returned unscaled: an output value is the raw sample
/// times a weight in `[0, WINDOW_SCALE]`, so the caller dividing by
/// `WINDOW_SCALE` recovers the tapered amplitude.
pub fn apply_window(samples: &Vec<i16>, start: usize, window: &Vec<u64>) -> (r: Vec<i64>)
    requires
        start + window@.len() <= samples@.len(),
        forall|j: int| 0 <= j < window@.len() ==> window@[j] <= WINDOW_SCALE,
    ensures
        r@.len() == window@.len(),
        forall|j: int| 0 <= j < r@.len() ==> r@[j] == samples@[start + j] * window@[j],
{
    let n = window.len();
    let total = samples.len();
    let mut out: Vec<i64> = Vec::new();
    for j in 0..n
        invariant
            n == window@.len(),
            total == samples@.len(),
            start + n <= total,
            forall|k: int| 0 <= k < n ==> window@[k] <= WINDOW_SCALE,
            out@.len() == j,
            forall|k: int| 0 <= k < j ==> out@[k] == samples@[start + k] * window@[k],
    {
        let s = samples[start + j] as i64;
        let w = window[j] as i64;
        proof {
            assert(-32768 * 32768 <= s * w <= 32767 * 32768) by (nonlinear_arith)
                requires
                    -32768 <= s <= 32767,
                    0 <= w <= 32768,
            ;
        }
        out.push(s * w);
    }
    out
}

} // verus!
