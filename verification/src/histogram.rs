//! Per-channel colour histograms and the statistics read from them.
use vstd::prelude::*;
use crate::image::Image;

verus! {

/// Sum of the first `k` entries of `h`.
pub open spec fn prefix_sum(h: Seq<u64>, k: int) -> int
    decreases k,
{
    if k <= 0 {
        0
    } else {
        prefix_sum(h, k - 1) + h[k - 1]
    }
}

/// `m` is the value at position `k` of the sorted values counted by `h`: fewer than
/// `k + 1` values are below it and more than `k` are at most it.
pub open spec fn is_kth_value(h: Seq<u64>, k: int, m: int) -> bool {
    prefix_sum(h, m) <= k < prefix_sum(h, m + 1)
}

/// The first value whose cumulative count passes `k` is the value at position `k`.
pub proof fn lemma_first_above_is_kth(h: Seq<u64>, k: int, i: int)
    requires
        h.len() == 256,
        0 <= i <= 256,
        prefix_sum(h, i) <= k,
        k < prefix_sum(h, 256),
    ensures
        i <= first_prefix_above(h, k, i) < 256,
        is_kth_value(h, k, first_prefix_above(h, k, i)),
    decreases 256 - i,
{
    if i < 256 && prefix_sum(h, i + 1) <= k {
        lemma_first_above_is_kth(h, k, i + 1);
    }
}

/// Sum of all 256 bins.
pub open spec fn bin_total(h: Seq<u64>) -> int {
    prefix_sum(h, 256)
}

/// Number of the first `n` pixels of the RGBA buffer `px` whose channel `c` equals `v`.
pub open spec fn channel_count(px: Seq<u8>, n: int, c: int, v: int) -> nat
    decreases n,
{
    if n <= 0 {
        0
    } else {
        channel_count(px, n - 1, c, v) + (if px[(n - 1) * 4 + c] == v {
            1nat
        } else {
            0nat
        })
    }
}

/// Like `channel_count`, counting only pixels whose alpha byte is not zero.
pub open spec fn opaque_channel_count(px: Seq<u8>, n: int, c: int, v: int) -> nat
    decreases n,
{
    if n <= 0 {
        0
    } else {
        opaque_channel_count(px, n - 1, c, v) + (if px[(n - 1) * 4 + 3] != 0 && px[(n - 1) * 4 + c]
            == v {
            1nat
        } else {
            0nat
        })
    }
}

/// Number of the first `n` pixels whose alpha byte is not zero.
pub open spec fn opaque_pixels(px: Seq<u8>, n: int) -> nat
    decreases n,
{
    if n <= 0 {
        0
    } else {
        opaque_pixels(px, n - 1) + (if px[(n - 1) * 4 + 3] != 0 {
            1nat
        } else {
            0nat
        })
    }
}

/// Changing one entry changes every prefix sum that covers it by the difference.
pub proof fn lemma_prefix_sum_update(h: Seq<u64>, idx: int, val: u64, k: int)
    requires
        0 <= idx < h.len(),
        k <= h.len(),
    ensures
        prefix_sum(h.update(idx, val), k) == prefix_sum(h, k) + (if idx < k {
            val - h[idx]
        } else {
            0
        }),
    decreases k,
{
    if k > 0 {
        lemma_prefix_sum_update(h, idx, val, k - 1);
    }
}

/// Prefix sums of counts never decrease.
pub proof fn lemma_prefix_sum_monotone(h: Seq<u64>, j: int, k: int)
    requires
        0 <= j <= k <= h.len(),
    ensures
        prefix_sum(h, j) <= prefix_sum(h, k),
    decreases k - j,
{
    if j < k {
        lemma_prefix_sum_monotone(h, j, k - 1);
    }
}

/// Every single bin is bounded by the total of a prefix that covers it.
pub proof fn lemma_bin_le_prefix(h: Seq<u64>, i: int, k: int)
    requires
        0 <= i < k <= h.len(),
    ensures
        h[i] <= prefix_sum(h, k),
    decreases k,
{
    lemma_prefix_sum_monotone(h, 0, k - 1);
    if i < k - 1 {
        lemma_bin_le_prefix(h, i, k - 1);
    }
}

/// The all-zero bins sum to zero.
pub proof fn lemma_prefix_sum_zero(h: Seq<u64>, k: int)
    requires
        k <= h.len(),
        forall|i: int| 0 <= i < h.len() ==> h[i] == 0,
    ensures
        prefix_sum(h, k) == 0,
    decreases k,
{
    if k > 0 {
        lemma_prefix_sum_zero(h, k - 1);
    }
}

/// A count over `n` pixels is at most `n`.
pub proof fn lemma_channel_count_le(px: Seq<u8>, n: int, c: int, v: int)
    requires
        n >= 0,
    ensures
        channel_count(px, n, c, v) <= n,
        opaque_channel_count(px, n, c, v) <= n,
        opaque_pixels(px, n) <= n,
    decreases n,
{
    if n > 0 {
        lemma_channel_count_le(px, n - 1, c, v);
    }
}

/// Sum of `v * h[v]` over the first `k` bins.
pub open spec fn weighted_prefix(h: Seq<u64>, k: int) -> int
    decreases k,
{
    if k <= 0 {
        0
    } else {
        weighted_prefix(h, k - 1) + (k - 1) * h[k - 1]
    }
}

/// First bin `v >= i` whose cumulative count `prefix_sum(h, v + 1)` exceeds `t`, or -1.
pub open spec fn first_prefix_above(h: Seq<u64>, t: int, i: int) -> int
    decreases 256 - i,
{
    if i >= 256 || i < 0 {
        -1
    } else if prefix_sum(h, i + 1) > t {
        i
    } else {
        first_prefix_above(h, t, i + 1)
    }
}

/// First bin `v >= i` whose cumulative count `prefix_sum(h, v + 1)` reaches `t`, or -1.
pub open spec fn first_prefix_reaching(h: Seq<u64>, t: int, i: int) -> int
    decreases 256 - i,
{
    if i >= 256 || i < 0 {
        -1
    } else if prefix_sum(h, i + 1) >= t {
        i
    } else {
        first_prefix_reaching(h, t, i + 1)
    }
}

/// Last bin `v <= i` whose tail count (bins `v..256`) reaches `t`, or -1.
pub open spec fn last_suffix_reaching(h: Seq<u64>, t: int, i: int) -> int
    decreases i + 1,
{
    if i < 0 || i >= 256 {
        -1
    } else if bin_total(h) - prefix_sum(h, i) >= t {
        i
    } else {
        last_suffix_reaching(h, t, i - 1)
    }
}

/// First non-empty bin at or after `i`, or -1.
pub open spec fn first_nonzero(h: Seq<u64>, i: int) -> int
    decreases 256 - i,
{
    if i >= 256 || i < 0 {
        -1
    } else if h[i] > 0 {
        i
    } else {
        first_nonzero(h, i + 1)
    }
}

/// Last non-empty bin at or before `i`, or -1.
pub open spec fn last_nonzero(h: Seq<u64>, i: int) -> int
    decreases i + 1,
{
    if i < 0 || i >= 256 {
        -1
    } else if h[i] > 0 {
        i
    } else {
        last_nonzero(h, i - 1)
    }
}

/// The median bin: the first bin whose cumulative count exceeds `count / 2`, else 255.
pub open spec fn hist_median(h: Seq<u64>, count: int) -> int {
    let v = first_prefix_above(h, count / 2, 0);
    if v < 0 {
        255
    } else {
        v
    }
}

/// The first bin whose cumulative count reaches `target`, else 255.
pub open spec fn hist_value_at(h: Seq<u64>, target: int) -> int {
    let v = first_prefix_reaching(h, target, 0);
    if v < 0 {
        255
    } else {
        v
    }
}

/// The mean bin value over `count` samples, truncated and capped at 255; 0 when `count` is 0.
pub open spec fn hist_mean(h: Seq<u64>, count: int) -> int {
    if count == 0 {
        0
    } else {
        let m = weighted_prefix(h, 256) / count;
        if m > 255 {
            255
        } else {
            m
        }
    }
}

/// Lower end of the value window `center ± threshold`, kept inside `0..=255`.
pub open spec fn window_low(center: int, threshold: int) -> int {
    if center - threshold < 0 {
        0
    } else {
        center - threshold
    }
}

/// Upper end of the value window `center ± threshold`, kept inside `0..=255`.
pub open spec fn window_high(center: int, threshold: int) -> int {
    if center + threshold > 255 {
        255
    } else {
        center + threshold
    }
}

/// Mean of the bins inside `center ± threshold`, truncated; `center` when that window is empty.
pub open spec fn hist_weighted_average(h: Seq<u64>, center: int, threshold: int) -> int {
    let lo = window_low(center, threshold);
    let hi = window_high(center, threshold);
    let count = prefix_sum(h, hi + 1) - prefix_sum(h, lo);
    let sum = weighted_prefix(h, hi + 1) - weighted_prefix(h, lo);
    if count == 0 {
        center
    } else if sum / count > 255 {
        255
    } else {
        sum / count
    }
}

/// Clip bounds `(low, high)` that cut `clip_count` samples from each tail of `h`.
///
/// `low` is the first bin whose cumulative count reaches `clip_count` (0 if none),
/// `high` the last bin whose tail count reaches it (255 if none); when they do not
/// form a proper range the first and last non-empty bins are used instead (0 and 255
/// for an empty histogram).
pub open spec fn clip_bounds(h: Seq<u64>, clip_count: int) -> (int, int) {
    let lo0 = first_prefix_reaching(h, clip_count, 0);
    let hi0 = last_suffix_reaching(h, clip_count, 255);
    let lo = if lo0 < 0 {
        0
    } else {
        lo0
    };
    let hi = if hi0 < 0 {
        255
    } else {
        hi0
    };
    if lo >= hi {
        let mn = first_nonzero(h, 0);
        let mx = last_nonzero(h, 255);
        (if mn < 0 {
            0
        } else {
            mn
        }, if mx < 0 {
            255
        } else {
            mx
        })
    } else {
        (lo, hi)
    }
}

/// The levels mapping of value `i` for clip bounds `(lo, hi)`: 0 up to `lo`, 255 from
/// `hi`, and `(i - lo) * 255 / (hi - lo)` rounded half up in between.
pub open spec fn levels_value(lo: int, hi: int, i: int) -> int {
    let denom = if hi - lo > 1 {
        hi - lo
    } else {
        1
    };
    if i <= lo {
        0
    } else if i >= hi {
        255
    } else {
        (2 * (i - lo) * 255 + denom) / (2 * denom)
    }
}

/// Weighted prefix sums are never negative.
pub proof fn lemma_weighted_prefix_nonneg(h: Seq<u64>, k: int)
    requires
        k <= h.len(),
    ensures
        0 <= weighted_prefix(h, k),
    decreases k,
{
    if k > 0 {
        lemma_weighted_prefix_nonneg(h, k - 1);
        assert(0 <= (k - 1) * h[k - 1]) by (nonlinear_arith)
            requires 0 <= k - 1, 0 <= h[k - 1];
    }
}

/// Weighted prefix sums never decrease.
pub proof fn lemma_weighted_prefix_monotone(h: Seq<u64>, j: int, k: int)
    requires
        0 <= j <= k <= h.len(),
    ensures
        weighted_prefix(h, j) <= weighted_prefix(h, k),
        0 <= weighted_prefix(h, j),
    decreases k - j,
{
    lemma_weighted_prefix_nonneg(h, j);
    if j < k {
        lemma_weighted_prefix_monotone(h, j, k - 1);
        assert(0 <= (k - 1) * h[k - 1]) by (nonlinear_arith)
            requires 0 <= k - 1, 0 <= h[k - 1];
    }
}

/// Each bin value is at most 255, so the weighted sum is at most 255 times the count.
pub proof fn lemma_weighted_prefix_bound(h: Seq<u64>, k: int)
    requires
        k <= h.len(),
        k <= 256,
    ensures
        weighted_prefix(h, k) <= 255 * prefix_sum(h, k),
    decreases k,
{
    if k > 0 {
        lemma_weighted_prefix_bound(h, k - 1);
        assert((k - 1) * h[k - 1] <= 255 * h[k - 1]) by (nonlinear_arith)
            requires 0 <= k - 1 <= 255, 0 <= h[k - 1];
    }
}

/// Sum of the 256 bins.
pub fn sum_bins(h: &[u64; 256]) -> (t: u64)
    requires
        bin_total(h@) <= u64::MAX,
    ensures
        t == bin_total(h@),
{
    let mut t: u64 = 0;
    let mut i: usize = 0;
    while i < 256
        invariant
            i <= 256,
            h@.len() == 256,
            bin_total(h@) <= u64::MAX,
            t == prefix_sum(h@, i as int),
        decreases 256 - i,
    {
        proof {
            lemma_prefix_sum_monotone(h@, i + 1, 256);
        }
        t = t + h[i];
        i = i + 1;
    }
    t
}

/// Index of the first bin whose cumulative count reaches `t`, or -1.
fn find_first_reaching(h: &[u64; 256], t: u64) -> (r: i32)
    requires
        bin_total(h@) <= u64::MAX,
    ensures
        r == first_prefix_reaching(h@, t as int, 0),
{
    let mut cum: u64 = 0;
    let mut i: usize = 0;
    while i < 256
        invariant
            i <= 256,
            h@.len() == 256,
            bin_total(h@) <= u64::MAX,
            cum == prefix_sum(h@, i as int),
            first_prefix_reaching(h@, t as int, 0) == first_prefix_reaching(h@, t as int, i as int),
        decreases 256 - i,
    {
        proof {
            lemma_prefix_sum_monotone(h@, i + 1, 256);
        }
        cum = cum + h[i];
        if cum >= t {
            return i as i32;
        }
        i = i + 1;
    }
    -1
}

/// Index of the last bin whose tail count (that bin and all above it) reaches `t`, or -1.
fn find_last_suffix_reaching(h: &[u64; 256], t: u64) -> (r: i32)
    requires
        bin_total(h@) <= u64::MAX,
    ensures
        r == last_suffix_reaching(h@, t as int, 255),
{
    let mut cum: u64 = 0;
    let mut k: usize = 0;
    while k < 256
        invariant
            k <= 256,
            h@.len() == 256,
            bin_total(h@) <= u64::MAX,
            cum == bin_total(h@) - prefix_sum(h@, 256 - k),
            last_suffix_reaching(h@, t as int, 255) == last_suffix_reaching(h@, t as int, 255 - k),
        decreases 256 - k,
    {
        let i: usize = 255 - k;
        proof {
            lemma_prefix_sum_monotone(h@, i as int, 256);
            lemma_prefix_sum_monotone(h@, 0, i as int);
            assert(prefix_sum(h@, i + 1) == prefix_sum(h@, i as int) + h@[i as int]);
        }
        cum = cum + h[i];
        if cum >= t {
            return i as i32;
        }
        k = k + 1;
    }
    -1
}

/// Index of the first non-empty bin, or -1.
fn find_first_nonzero(h: &[u64; 256]) -> (r: i32)
    ensures
        r == first_nonzero(h@, 0),
{
    let mut i: usize = 0;
    while i < 256
        invariant
            i <= 256,
            h@.len() == 256,
            first_nonzero(h@, 0) == first_nonzero(h@, i as int),
        decreases 256 - i,
    {
        if h[i] > 0 {
            return i as i32;
        }
        i = i + 1;
    }
    -1
}

/// Index of the last non-empty bin, or -1.
fn find_last_nonzero(h: &[u64; 256]) -> (r: i32)
    ensures
        r == last_nonzero(h@, 255),
{
    let mut k: usize = 0;
    while k < 256
        invariant
            k <= 256,
            h@.len() == 256,
            last_nonzero(h@, 255) == last_nonzero(h@, 255 - k),
        decreases 256 - k,
    {
        let i: usize = 255 - k;
        if h[i] > 0 {
            return i as i32;
        }
        k = k + 1;
    }
    -1
}

/// The first non-empty bin found from `i` is non-empty and no earlier than `i`.
proof fn lemma_first_nonzero_found(h: Seq<u64>, i: int)
    requires
        h.len() == 256,
        0 <= i,
        first_nonzero(h, i) >= 0,
    ensures
        i <= first_nonzero(h, i) < 256,
        h[first_nonzero(h, i)] > 0,
    decreases 256 - i,
{
    if i < 256 && h[i] == 0 {
        lemma_first_nonzero_found(h, i + 1);
    }
}

/// A non-empty bin at `a <= i` makes the last non-empty bin up to `i` at least `a`.
proof fn lemma_last_nonzero_at_least(h: Seq<u64>, a: int, i: int)
    requires
        h.len() == 256,
        0 <= a <= i < 256,
        h[a] > 0,
    ensures
        last_nonzero(h, i) >= a,
    decreases i,
{
    if h[i] == 0 && i > a {
        lemma_last_nonzero_at_least(h, a, i - 1);
    }
}

/// The two clip bounds are always ordered and lie in `0..=255`.
pub proof fn lemma_clip_bounds_ordered(h: Seq<u64>, clip_count: int)
    requires
        h.len() == 256,
    ensures
        0 <= clip_bounds(h, clip_count).0 <= clip_bounds(h, clip_count).1 <= 255,
{
    lemma_first_reaching_range(h, clip_count, 0);
    lemma_last_reaching_range(h, clip_count, 255);
    lemma_last_nonzero_range(h, 255);
    let mn = first_nonzero(h, 0);
    if mn >= 0 {
        lemma_first_nonzero_found(h, 0);
        lemma_last_nonzero_at_least(h, mn, 255);
    }
}

/// `first_prefix_reaching` returns -1 or a bin index.
proof fn lemma_first_reaching_range(h: Seq<u64>, t: int, i: int)
    requires
        0 <= i,
    ensures
        -1 <= first_prefix_reaching(h, t, i) < 256,
    decreases 256 - i,
{
    if i < 256 && prefix_sum(h, i + 1) < t {
        lemma_first_reaching_range(h, t, i + 1);
    }
}

/// `last_suffix_reaching` returns -1 or a bin index.
proof fn lemma_last_reaching_range(h: Seq<u64>, t: int, i: int)
    requires
        i < 256,
    ensures
        -1 <= last_suffix_reaching(h, t, i) <= 255,
    decreases i + 1,
{
    if i >= 0 && bin_total(h) - prefix_sum(h, i) < t {
        lemma_last_reaching_range(h, t, i - 1);
    }
}

/// `last_nonzero` returns -1 or a bin index.
proof fn lemma_last_nonzero_range(h: Seq<u64>, i: int)
    requires
        i < 256,
    ensures
        -1 <= last_nonzero(h, i) <= 255,
    decreases i + 1,
{
    if i >= 0 && h[i] == 0 {
        lemma_last_nonzero_range(h, i - 1);
    }
}

/// With nothing to clip, the bounds are the identity range `(0, 255)`.
pub proof fn lemma_clip_bounds_zero(h: Seq<u64>)
    requires
        h.len() == 256,
    ensures
        clip_bounds(h, 0) == (0int, 255int),
{
    lemma_prefix_sum_monotone(h, 0, 1);
    lemma_prefix_sum_monotone(h, 255, 256);
    lemma_prefix_sum_monotone(h, 0, 255);
}

/// Every levels value lies in `0..=255`.
pub proof fn lemma_levels_value_range(lo: int, hi: int, i: int)
    requires
        0 <= lo <= hi <= 255,
    ensures
        0 <= levels_value(lo, hi, i) <= 255,
{
    if lo < i < hi {
        let d = hi - lo;
        assert(0 <= (2 * (i - lo) * 255 + d) / (2 * d) <= 255) by (nonlinear_arith)
            requires
                0 < i - lo < d,
        {
            assert(2 * (i - lo) * 255 + d <= 2 * d * 255 + 2 * d - 1) by (nonlinear_arith)
                requires 0 < i - lo < d;
            assert((2 * (i - lo) * 255 + d) / (2 * d) < 256) by (nonlinear_arith)
                requires 2 * (i - lo) * 255 + d < 2 * d * 256, d > 0;
        }
    }
}

/// The levels mapping never decreases: brighter inputs never map to darker outputs.
pub proof fn lemma_levels_monotone(lo: int, hi: int, i: int, j: int)
    requires
        0 <= lo <= hi <= 255,
        i <= j,
    ensures
        levels_value(lo, hi, i) <= levels_value(lo, hi, j),
{
    lemma_levels_value_range(lo, hi, i);
    lemma_levels_value_range(lo, hi, j);
    if lo < i && j < hi {
        let d = hi - lo;
        assert((2 * (i - lo) * 255 + d) / (2 * d) <= (2 * (j - lo) * 255 + d) / (2 * d))
            by (nonlinear_arith)
            requires
                lo < i <= j,
                d > 0,
        {
            vstd::arithmetic::div_mod::lemma_div_is_ordered(2 * (i - lo) * 255 + d, 2 * (j - lo) * 255 + d, 2 * d);
        }
    }
}

/// Over bins `a..b`, the weighted sum lies between `a` and `b - 1` times the count.
pub proof fn lemma_weighted_range_bounds(h: Seq<u64>, a: int, b: int)
    requires
        0 <= a <= b <= h.len(),
    ensures
        a * (prefix_sum(h, b) - prefix_sum(h, a)) <= weighted_prefix(h, b) - weighted_prefix(h, a),
        weighted_prefix(h, b) - weighted_prefix(h, a) <= (b - 1) * (prefix_sum(h, b) - prefix_sum(h, a)),
    decreases b - a,
{
    if a < b {
        lemma_weighted_range_bounds(h, a, b - 1);
        lemma_prefix_sum_monotone(h, a, b - 1);
        let n = prefix_sum(h, b - 1) - prefix_sum(h, a);
        let s = weighted_prefix(h, b - 1) - weighted_prefix(h, a);
        let f = h[b - 1] as int;
        assert(a * (n + f) <= s + (b - 1) * f) by (nonlinear_arith)
            requires a * n <= s, 0 <= f, a <= b - 1;
        assert(s + (b - 1) * f <= (b - 1) * (n + f)) by (nonlinear_arith)
            requires s <= (b - 2) * n, 0 <= n;
    }
}

/// `q` is the truncated quotient `s / n`.
proof fn lemma_floor_div(s: int, n: int)
    requires
        n > 0,
        s >= 0,
    ensures
        (s / n) * n <= s < (s / n + 1) * n,
{
    assert((s / n) * n <= s < (s / n + 1) * n) by (nonlinear_arith)
        requires n > 0, s >= 0;
}

/// The edge-aware average is the truncated mean of exactly the samples `v` with
/// `center - threshold <= v <= center + threshold` (cut to `0..=255`): with `n` such
/// samples of total `s`, the result `m` satisfies `m * n <= s < (m + 1) * n`; with none,
/// it is `center`.
pub proof fn law_weighted_average_is_window_mean(h: Seq<u64>, center: int, threshold: int)
    requires
        h.len() == 256,
        0 <= center <= 255,
        0 <= threshold <= 255,
    ensures
        ({
            let lo = if center < threshold { 0 } else { center - threshold };
            let hi = if center + threshold > 255 { 255 } else { center + threshold };
            let n = prefix_sum(h, hi + 1) - prefix_sum(h, lo);
            let s = weighted_prefix(h, hi + 1) - weighted_prefix(h, lo);
            let m = hist_weighted_average(h, center, threshold);
            &&& n == 0 ==> m == center
            &&& n > 0 ==> m * n <= s < (m + 1) * n
        }),
{
    let lo = if center < threshold { 0 } else { center - threshold };
    let hi = if center + threshold > 255 { 255 } else { center + threshold };
    let n = prefix_sum(h, hi + 1) - prefix_sum(h, lo);
    let s = weighted_prefix(h, hi + 1) - weighted_prefix(h, lo);
    lemma_prefix_sum_monotone(h, lo, hi + 1);
    lemma_weighted_range_bounds(h, lo, hi + 1);
    if n > 0 {
        assert(s <= 255 * n) by (nonlinear_arith)
            requires s <= hi * n, hi <= 255, n > 0;
        assert(0 <= s) by (nonlinear_arith)
            requires lo * n <= s, 0 <= lo, n > 0;
        lemma_floor_div(s, n);
        assert(s / n <= 255) by (nonlinear_arith)
            requires s <= 255 * n, n > 0, (s / n) * n <= s;
    }
}

/// A window holding samples at a single value `v` (and no others) averages to `v`;
/// `center` when `v` lies outside the window.
pub proof fn law_weighted_average_single_value(h: Seq<u64>, center: int, threshold: int, v: int)
    requires
        h.len() == 256,
        0 <= center <= 255,
        0 <= threshold <= 255,
        0 <= v <= 255,
        h[v] > 0,
        forall|u: int| 0 <= u < 256 && u != v ==> h[u] == 0,
    ensures
        center - threshold <= v <= center + threshold ==> hist_weighted_average(h, center, threshold) == v,
        (v < center - threshold || v > center + threshold) ==> hist_weighted_average(h, center, threshold)
            == center,
{
    let lo = if center < threshold { 0 } else { center - threshold };
    let hi = if center + threshold > 255 { 255 } else { center + threshold };
    law_weighted_average_is_window_mean(h, center, threshold);
    lemma_single_bin_sums(h, v, lo);
    lemma_single_bin_sums(h, v, hi + 1);
    let k = h[v] as int;
    let m = hist_weighted_average(h, center, threshold);
    if lo <= v <= hi {
        assert(m == v) by (nonlinear_arith)
            requires m * k <= v * k, v * k < (m + 1) * k, k > 0;
    }
}

/// With all samples at `v`, prefix sums and weighted prefix sums are step functions at `v`.
pub proof fn lemma_single_bin_sums(h: Seq<u64>, v: int, j: int)
    requires
        h.len() == 256,
        0 <= v <= 255,
        0 <= j <= 256,
        forall|u: int| 0 <= u < 256 && u != v ==> h[u] == 0,
    ensures
        prefix_sum(h, j) == (if j > v { h[v] as int } else { 0 }),
        weighted_prefix(h, j) == (if j > v { v * h[v] } else { 0 }),
    decreases j,
{
    if j > 0 {
        lemma_single_bin_sums(h, v, j - 1);
        if j - 1 != v {
            assert((j - 1) * h[j - 1] == 0) by (nonlinear_arith)
                requires h[j - 1] == 0;
        }
    }
}

/// The mean over `count > 0` samples is the truncated quotient of the sum of `v * h[v]`
/// over every value `v` in `0..=255` by `count`, capped at 255; over no samples it is 0.
pub proof fn law_mean_is_truncated_average(h: Seq<u64>, count: int)
    requires
        h.len() == 256,
        count >= 0,
    ensures
        count == 0 ==> hist_mean(h, count) == 0,
        count > 0 && weighted_prefix(h, 256) < 256 * count ==> hist_mean(h, count) * count <= weighted_prefix(h, 256)
            < (hist_mean(h, count) + 1) * count,
        count > 0 && weighted_prefix(h, 256) >= 256 * count ==> hist_mean(h, count) == 255,
{
    if count > 0 {
        let s = weighted_prefix(h, 256);
        lemma_weighted_prefix_nonneg(h, 256);
        lemma_floor_div(s, count);
        if s < 256 * count {
            assert(s / count <= 255) by (nonlinear_arith)
                requires s < 256 * count, count > 0, (s / count) * count <= s;
        } else {
            assert(s / count >= 256) by (nonlinear_arith)
                requires s >= 256 * count, count > 0, s < (s / count + 1) * count;
        }
    }
}

/// `k > 0` samples all at the value `v` have mean `v`, for every `v` including 255.
pub proof fn law_mean_single_value(h: Seq<u64>, v: int)
    requires
        h.len() == 256,
        0 <= v <= 255,
        h[v] > 0,
        forall|u: int| 0 <= u < 256 && u != v ==> h[u] == 0,
    ensures
        hist_mean(h, h[v] as int) == v,
{
    let k = h[v] as int;
    lemma_single_bin_sums(h, v, 256);
    law_mean_is_truncated_average(h, k);
    assert(v * k < 256 * k) by (nonlinear_arith)
        requires v <= 255, k > 0;
    let m = hist_mean(h, k);
    assert(m == v) by (nonlinear_arith)
        requires m * k <= v * k, v * k < (m + 1) * k, k > 0;
}

/// Inside the clip bounds, the levels mapping stretches `lo..hi` over `0..=255`: value
/// `i` maps to `(i - lo) * 255 / (hi - lo)` rounded half up, i.e. the result `v`
/// satisfies `2 d v <= 2 (i - lo) 255 + d < 2 d (v + 1)` with `d = hi - lo`; values up to
/// `lo` map to 0 and values from `hi` on (above `lo`) to 255.
pub proof fn law_levels_stretch(lo: int, hi: int, i: int)
    requires
        0 <= lo <= hi <= 255,
    ensures
        i <= lo ==> levels_value(lo, hi, i) == 0,
        lo < i && hi <= i ==> levels_value(lo, hi, i) == 255,
        lo < i < hi ==> 2 * (hi - lo) * levels_value(lo, hi, i) <= 2 * (i - lo) * 255 + (hi - lo)
            < 2 * (hi - lo) * (levels_value(lo, hi, i) + 1),
{
    if lo < i < hi {
        let d = hi - lo;
        let t = 2 * (i - lo) * 255 + d;
        lemma_floor_div(t, 2 * d);
        let v = levels_value(lo, hi, i);
        assert(v == t / (2 * d));
        assert(2 * d * v <= t < 2 * d * (v + 1)) by (nonlinear_arith)
            requires v * (2 * d) <= t < (v + 1) * (2 * d);
    }
}

/// `first_prefix_reaching` from `i` finds the least bin `v >= i` whose cumulative count
/// reaches `t`, or -1 when there is none.
proof fn lemma_first_reaching_char(h: Seq<u64>, t: int, i: int)
    requires
        0 <= i <= 256,
    ensures
        first_prefix_reaching(h, t, i) == -1 ==> forall|u: int| i < u <= 256 ==> #[trigger] prefix_sum(h, u) < t,
        first_prefix_reaching(h, t, i) != -1 ==> {
            let r = first_prefix_reaching(h, t, i);
            &&& i <= r < 256
            &&& prefix_sum(h, r + 1) >= t
            &&& forall|u: int| i < u <= r ==> #[trigger] prefix_sum(h, u) < t
        },
    decreases 256 - i,
{
    if i < 256 && prefix_sum(h, i + 1) < t {
        lemma_first_reaching_char(h, t, i + 1);
    }
}

/// `last_suffix_reaching` down from `i` finds the greatest bin `v <= i` whose tail count
/// reaches `t`, or -1 when there is none.
proof fn lemma_last_reaching_char(h: Seq<u64>, t: int, i: int)
    requires
        -1 <= i <= 255,
    ensures
        last_suffix_reaching(h, t, i) == -1 ==> forall|u: int| 0 <= u <= i ==> bin_total(h) - prefix_sum(h, u) < t,
        last_suffix_reaching(h, t, i) != -1 ==> {
            let r = last_suffix_reaching(h, t, i);
            &&& 0 <= r <= i
            &&& bin_total(h) - prefix_sum(h, r) >= t
            &&& forall|u: int| r < u <= i ==> bin_total(h) - prefix_sum(h, u) < t
        },
    decreases i + 1,
{
    if i >= 0 && bin_total(h) - prefix_sum(h, i) < t {
        lemma_last_reaching_char(h, t, i - 1);
    }
}

/// `first_nonzero` from `i` finds the least non-empty bin `v >= i`, or -1.
proof fn lemma_first_nonzero_char(h: Seq<u64>, i: int)
    requires
        h.len() == 256,
        0 <= i <= 256,
    ensures
        first_nonzero(h, i) == -1 ==> forall|u: int| i <= u < 256 ==> h[u] == 0,
        first_nonzero(h, i) != -1 ==> {
            let r = first_nonzero(h, i);
            &&& i <= r < 256
            &&& h[r] > 0
            &&& forall|u: int| i <= u < r ==> h[u] == 0
        },
    decreases 256 - i,
{
    if i < 256 && h[i] == 0 {
        lemma_first_nonzero_char(h, i + 1);
    }
}

/// `last_nonzero` down from `i` finds the greatest non-empty bin `v <= i`, or -1.
proof fn lemma_last_nonzero_char(h: Seq<u64>, i: int)
    requires
        h.len() == 256,
        -1 <= i <= 255,
    ensures
        last_nonzero(h, i) == -1 ==> forall|u: int| 0 <= u <= i ==> h[u] == 0,
        last_nonzero(h, i) != -1 ==> {
            let r = last_nonzero(h, i);
            &&& 0 <= r <= i
            &&& h[r] > 0
            &&& forall|u: int| r < u <= i ==> h[u] == 0
        },
    decreases i + 1,
{
    if i >= 0 && h[i] == 0 {
        lemma_last_nonzero_char(h, i - 1);
    }
}

/// The median of `count` samples is the value at sorted position `count / 2`: fewer than
/// `count / 2 + 1` samples lie below it and more than `count / 2` at or below it.
pub proof fn law_median_is_middle_sample(h: Seq<u64>, count: int)
    requires
        h.len() == 256,
        0 <= count,
        count / 2 < bin_total(h),
    ensures
        0 <= hist_median(h, count) <= 255,
        prefix_sum(h, hist_median(h, count)) <= count / 2 < prefix_sum(h, hist_median(h, count) + 1),
{
    lemma_first_above_is_kth(h, count / 2, 0);
}

/// The percentile value for `target` is the least bin `m` whose cumulative count (bins
/// up to and including `m`) reaches `target`, or 255 when no bin's does.
pub proof fn law_percentile_is_first_reaching(h: Seq<u64>, target: int)
    requires
        h.len() == 256,
    ensures
        0 <= hist_value_at(h, target) <= 255,
        (prefix_sum(h, hist_value_at(h, target) + 1) >= target && forall|u: int|
            0 < u <= hist_value_at(h, target) ==> #[trigger] prefix_sum(h, u) < target) || (hist_value_at(h, target)
            == 255 && forall|u: int| 0 < u <= 256 ==> #[trigger] prefix_sum(h, u) < target),
{
    lemma_first_reaching_char(h, target, 0);
}

/// `(a, b)` are the first and last non-empty bins of `h`, or `(0, 255)` when `h` is empty.
pub open spec fn is_occupied_range(h: Seq<u64>, a: int, b: int) -> bool {
    if forall|u: int| 0 <= u < 256 ==> h[u] == 0 {
        a == 0 && b == 255
    } else {
        &&& 0 <= a <= b <= 255
        &&& h[a] > 0 && h[b] > 0
        &&& forall|u: int| 0 <= u < a ==> h[u] == 0
        &&& forall|u: int| b < u < 256 ==> h[u] == 0
    }
}

/// Clip bounds from the tails: let `lo` be the least bin whose cumulative count reaches
/// `clip_count` (0 when none does) and `hi` the greatest bin whose tail count (bins from
/// it up) reaches `clip_count` (255 when none does). When `lo < hi` the bounds are
/// `(lo, hi)`; otherwise they are the first and last non-empty bins of the histogram
/// (`(0, 255)` for an empty one).
pub proof fn law_clip_bounds_tails_or_extremes(h: Seq<u64>, clip_count: int, lo: int, hi: int)
    requires
        h.len() == 256,
        0 <= lo <= 255,
        0 <= hi <= 255,
        (prefix_sum(h, lo + 1) >= clip_count && forall|u: int| 0 < u <= lo ==> #[trigger] prefix_sum(h, u) < clip_count)
            || (lo == 0 && forall|u: int| 0 < u <= 256 ==> #[trigger] prefix_sum(h, u) < clip_count),
        (bin_total(h) - prefix_sum(h, hi) >= clip_count && forall|u: int| hi < u < 256 ==> bin_total(h)
            - prefix_sum(h, u) < clip_count) || (hi == 255 && forall|u: int| 0 <= u < 256 ==> bin_total(h)
            - prefix_sum(h, u) < clip_count),
    ensures
        lo < hi ==> clip_bounds(h, clip_count) == (lo, hi),
        lo >= hi ==> is_occupied_range(h, clip_bounds(h, clip_count).0, clip_bounds(h, clip_count).1),
{
    lemma_first_reaching_char(h, clip_count, 0);
    lemma_last_reaching_char(h, clip_count, 255);
    let lo0 = first_prefix_reaching(h, clip_count, 0);
    let hi0 = last_suffix_reaching(h, clip_count, 255);
    let l = if lo0 < 0 { 0 } else { lo0 };
    let g = if hi0 < 0 { 255 } else { hi0 };
    // The tail bounds found by the search are the ones characterised in the requirements.
    if lo0 != -1 {
        if lo < lo0 {
            assert(prefix_sum(h, lo + 1) < clip_count);
        } else if lo > lo0 {
            assert(prefix_sum(h, lo0 + 1) < clip_count);
        }
    } else {
        if !(forall|u: int| 0 < u <= 256 ==> #[trigger] prefix_sum(h, u) < clip_count) {
            assert(prefix_sum(h, lo + 1) < clip_count);
        }
    }
    assert(l == lo);
    if hi0 != -1 {
        if hi < hi0 {
            assert(bin_total(h) - prefix_sum(h, hi0) < clip_count);
        } else if hi > hi0 {
            assert(bin_total(h) - prefix_sum(h, hi) < clip_count);
        }
    } else {
        if !(forall|u: int| 0 <= u < 256 ==> bin_total(h) - prefix_sum(h, u) < clip_count) {
            assert(bin_total(h) - prefix_sum(h, hi) < clip_count);
        }
    }
    assert(g == hi);
    if lo >= hi {
        lemma_first_nonzero_char(h, 0);
        lemma_last_nonzero_char(h, 255);
        let mn = first_nonzero(h, 0);
        let mx = last_nonzero(h, 255);
        if mn == -1 {
            assert(forall|u: int| 0 <= u < 256 ==> h[u] == 0);
        } else {
            assert(h[mn] > 0);
            assert(mx != -1);
            if mx < mn {
                assert(h[mn] == 0);
            }
        }
    }
}

/// The colour histogram of an image: for each channel, how many pixels hold each value.
pub struct Histogram {
    red: [u64; 256],
    green: [u64; 256],
    blue: [u64; 256],
    alpha: [u64; 256],
}

impl Histogram {
    /// The red bins.
    pub closed spec fn spec_red(&self) -> Seq<u64> {
        self.red@
    }

    /// The green bins.
    pub closed spec fn spec_green(&self) -> Seq<u64> {
        self.green@
    }

    /// The blue bins.
    pub closed spec fn spec_blue(&self) -> Seq<u64> {
        self.blue@
    }

    /// The alpha bins.
    pub closed spec fn spec_alpha(&self) -> Seq<u64> {
        self.alpha@
    }

    /// Every channel has 256 bins.
    pub open spec fn spec_shape(&self) -> bool {
        &&& self.spec_red().len() == 256
        &&& self.spec_green().len() == 256
        &&& self.spec_blue().len() == 256
        &&& self.spec_alpha().len() == 256
    }

    /// Creates an empty histogram.
    pub fn new() -> (h: Histogram)
        ensures
            h.spec_shape(),
            forall|i: int|
                0 <= i < 256 ==> h.spec_red()[i] == 0 && h.spec_green()[i] == 0 && h.spec_blue()[i]
                    == 0 && h.spec_alpha()[i] == 0,
    {
        Histogram { red: [0u64; 256], green: [0u64; 256], blue: [0u64; 256], alpha: [0u64; 256] }
    }

    /// Counts every pixel of the RGBA buffer `rgba` in each channel.
    pub fn from_rgba(rgba: &[u8]) -> (h: Histogram)
        requires
            rgba@.len() % 4 == 0,
        ensures
            h.spec_shape(),
            forall|v: int|
                0 <= v < 256 ==> {
                    &&& h.spec_red()[v] == channel_count(rgba@, (rgba@.len() / 4) as int, 0, v)
                    &&& h.spec_green()[v] == channel_count(rgba@, (rgba@.len() / 4) as int, 1, v)
                    &&& h.spec_blue()[v] == channel_count(rgba@, (rgba@.len() / 4) as int, 2, v)
                    &&& h.spec_alpha()[v] == channel_count(rgba@, (rgba@.len() / 4) as int, 3, v)
                },
            bin_total(h.spec_red()) == rgba@.len() / 4,
            bin_total(h.spec_green()) == rgba@.len() / 4,
            bin_total(h.spec_blue()) == rgba@.len() / 4,
            bin_total(h.spec_alpha()) == rgba@.len() / 4,
    {
        let len: usize = rgba.len();
        let n: usize = len / 4;
        let mut h = Histogram::new();
        proof {
            lemma_prefix_sum_zero(h.red@, 256);
            lemma_prefix_sum_zero(h.green@, 256);
            lemma_prefix_sum_zero(h.blue@, 256);
            lemma_prefix_sum_zero(h.alpha@, 256);
        }
        let mut p: usize = 0;
        while p < n
            invariant
                len == rgba@.len(),
                n == rgba@.len() / 4,
                rgba@.len() % 4 == 0,
                p <= n,
                forall|v: int|
                    0 <= v < 256 ==> {
                        &&& h.red@[v] == channel_count(rgba@, p as int, 0, v)
                        &&& h.green@[v] == channel_count(rgba@, p as int, 1, v)
                        &&& h.blue@[v] == channel_count(rgba@, p as int, 2, v)
                        &&& h.alpha@[v] == channel_count(rgba@, p as int, 3, v)
                    },
                bin_total(h.red@) == p,
                bin_total(h.green@) == p,
                bin_total(h.blue@) == p,
                bin_total(h.alpha@) == p,
            decreases n - p,
        {
            assert(p * 4 + 4 <= rgba@.len());
            let base: usize = p * 4;
            let r = rgba[base] as usize;
            let g = rgba[base + 1] as usize;
            let b = rgba[base + 2] as usize;
            let a = rgba[base + 3] as usize;
            proof {
                lemma_channel_count_le(rgba@, p as int, 0, r as int);
                lemma_channel_count_le(rgba@, p as int, 1, g as int);
                lemma_channel_count_le(rgba@, p as int, 2, b as int);
                lemma_channel_count_le(rgba@, p as int, 3, a as int);
                lemma_prefix_sum_update(h.red@, r as int, (h.red@[r as int] + 1) as u64, 256);
                lemma_prefix_sum_update(h.green@, g as int, (h.green@[g as int] + 1) as u64, 256);
                lemma_prefix_sum_update(h.blue@, b as int, (h.blue@[b as int] + 1) as u64, 256);
                lemma_prefix_sum_update(h.alpha@, a as int, (h.alpha@[a as int] + 1) as u64, 256);
            }
            h.red[r] = h.red[r] + 1;
            h.green[g] = h.green[g] + 1;
            h.blue[b] = h.blue[b] + 1;
            h.alpha[a] = h.alpha[a] + 1;
            p = p + 1;
        }
        h
    }

    /// Counts the pixels of `rgba` whose alpha is not zero; fully transparent pixels are skipped.
    pub fn from_rgba_skip_transparent(rgba: &[u8]) -> (h: Histogram)
        requires
            rgba@.len() % 4 == 0,
        ensures
            h.spec_shape(),
            forall|v: int|
                0 <= v < 256 ==> {
                    &&& h.spec_red()[v] == opaque_channel_count(rgba@, (rgba@.len() / 4) as int, 0, v)
                    &&& h.spec_green()[v] == opaque_channel_count(rgba@, (rgba@.len() / 4) as int, 1, v)
                    &&& h.spec_blue()[v] == opaque_channel_count(rgba@, (rgba@.len() / 4) as int, 2, v)
                    &&& h.spec_alpha()[v] == opaque_channel_count(rgba@, (rgba@.len() / 4) as int, 3, v)
                },
            h.spec_alpha()[0] == 0,
            bin_total(h.spec_red()) == opaque_pixels(rgba@, (rgba@.len() / 4) as int),
            bin_total(h.spec_green()) == opaque_pixels(rgba@, (rgba@.len() / 4) as int),
            bin_total(h.spec_blue()) == opaque_pixels(rgba@, (rgba@.len() / 4) as int),
            bin_total(h.spec_alpha()) == opaque_pixels(rgba@, (rgba@.len() / 4) as int),
    {
        let len: usize = rgba.len();
        let n: usize = len / 4;
        let mut h = Histogram::new();
        proof {
            lemma_prefix_sum_zero(h.red@, 256);
            lemma_prefix_sum_zero(h.green@, 256);
            lemma_prefix_sum_zero(h.blue@, 256);
            lemma_prefix_sum_zero(h.alpha@, 256);
        }
        let mut p: usize = 0;
        while p < n
            invariant
                len == rgba@.len(),
                n == rgba@.len() / 4,
                rgba@.len() % 4 == 0,
                p <= n,
                h.alpha@[0] == 0,
                forall|v: int|
                    0 <= v < 256 ==> {
                        &&& h.red@[v] == opaque_channel_count(rgba@, p as int, 0, v)
                        &&& h.green@[v] == opaque_channel_count(rgba@, p as int, 1, v)
                        &&& h.blue@[v] == opaque_channel_count(rgba@, p as int, 2, v)
                        &&& h.alpha@[v] == opaque_channel_count(rgba@, p as int, 3, v)
                    },
                bin_total(h.red@) == opaque_pixels(rgba@, p as int),
                bin_total(h.green@) == opaque_pixels(rgba@, p as int),
                bin_total(h.blue@) == opaque_pixels(rgba@, p as int),
                bin_total(h.alpha@) == opaque_pixels(rgba@, p as int),
            decreases n - p,
        {
            assert(p * 4 + 4 <= rgba@.len());
            let base: usize = p * 4;
            let a = rgba[base + 3] as usize;
            if a != 0 {
                let r = rgba[base] as usize;
                let g = rgba[base + 1] as usize;
                let b = rgba[base + 2] as usize;
                proof {
                    lemma_channel_count_le(rgba@, p as int, 0, r as int);
                    lemma_channel_count_le(rgba@, p as int, 1, g as int);
                    lemma_channel_count_le(rgba@, p as int, 2, b as int);
                    lemma_channel_count_le(rgba@, p as int, 3, a as int);
                    lemma_prefix_sum_update(h.red@, r as int, (h.red@[r as int] + 1) as u64, 256);
                    lemma_prefix_sum_update(h.green@, g as int, (h.green@[g as int] + 1) as u64, 256);
                    lemma_prefix_sum_update(h.blue@, b as int, (h.blue@[b as int] + 1) as u64, 256);
                    lemma_prefix_sum_update(h.alpha@, a as int, (h.alpha@[a as int] + 1) as u64, 256);
                }
                h.red[r] = h.red[r] + 1;
                h.green[g] = h.green[g] + 1;
                h.blue[b] = h.blue[b] + 1;
                h.alpha[a] = h.alpha[a] + 1;
            }
            p = p + 1;
        }
        h
    }

    /// Counts every pixel of `p_image` in each channel.
    pub fn from_image(p_image: &Image) -> (h: Histogram)
        ensures
            h.spec_shape(),
            ({
                let px = p_image.spec_rgba();
                let n = (px.len() / 4) as int;
                forall|v: int|
                    #![trigger h.spec_red()[v]]
                    #![trigger h.spec_green()[v]]
                    #![trigger h.spec_blue()[v]]
                    #![trigger h.spec_alpha()[v]]
                    0 <= v < 256 ==> {
                        &&& h.spec_red()[v] == channel_count(px, n, 0, v)
                        &&& h.spec_green()[v] == channel_count(px, n, 1, v)
                        &&& h.spec_blue()[v] == channel_count(px, n, 2, v)
                        &&& h.spec_alpha()[v] == channel_count(px, n, 3, v)
                    }
            }),
            bin_total(h.spec_red()) == p_image.spec_width() * p_image.spec_height(),
    {
        let _d = p_image.shape();
        Histogram::from_rgba(p_image.rgba())
    }

    /// Counts the pixels of `p_image` whose alpha is not zero.
    pub fn from_image_skip_transparent(p_image: &Image) -> (h: Histogram)
        ensures
            h.spec_shape(),
            ({
                let px = p_image.spec_rgba();
                let n = (px.len() / 4) as int;
                forall|v: int|
                    #![trigger h.spec_red()[v]]
                    #![trigger h.spec_green()[v]]
                    #![trigger h.spec_blue()[v]]
                    #![trigger h.spec_alpha()[v]]
                    0 <= v < 256 ==> {
                        &&& h.spec_red()[v] == opaque_channel_count(px, n, 0, v)
                        &&& h.spec_green()[v] == opaque_channel_count(px, n, 1, v)
                        &&& h.spec_blue()[v] == opaque_channel_count(px, n, 2, v)
                        &&& h.spec_alpha()[v] == opaque_channel_count(px, n, 3, v)
                    }
            }),
            h.spec_alpha()[0] == 0,
            bin_total(h.spec_red()) == opaque_pixels(p_image.spec_rgba(), (p_image.spec_rgba().len() / 4) as int),
    {
        let _d = p_image.shape();
        Histogram::from_rgba_skip_transparent(p_image.rgba())
    }

    /// The median of a channel histogram holding `count` samples: the first value whose
    /// cumulative count exceeds `count / 2`, or 255 when none does.
    pub fn median_from_hist(hist: &[u64; 256], count: u64) -> (m: u8)
        requires
            bin_total(hist@) <= u64::MAX,
        ensures
            m == hist_median(hist@, count as int),
            count / 2 < bin_total(hist@) ==> is_kth_value(hist@, (count / 2) as int, m as int),
    {
        let half: u64 = count / 2;
        let mut cumulative: u64 = 0;
        let mut val: usize = 0;
        while val < 256
            invariant
                val <= 256,
                hist@.len() == 256,
                bin_total(hist@) <= u64::MAX,
                half == count / 2,
                cumulative <= half,
                cumulative == prefix_sum(hist@, val as int),
                first_prefix_above(hist@, half as int, 0) == first_prefix_above(hist@, half as int, val as int),
            decreases 256 - val,
        {
            proof {
                lemma_prefix_sum_monotone(hist@, val + 1, 256);
            }
            cumulative = cumulative + hist[val];
            if cumulative > half {
                proof {
                    if half < bin_total(hist@) {
                        lemma_first_above_is_kth(hist@, half as int, 0);
                    }
                }
                return val as u8;
            }
            val = val + 1;
        }
        255
    }

    /// The first value whose cumulative count reaches `target`, or 255 when none does.
    pub fn percentile_from_target(hist: &[u64; 256], target: u64) -> (m: u8)
        requires
            bin_total(hist@) <= u64::MAX,
        ensures
            m == hist_value_at(hist@, target as int),
    {
        let mut cumulative: u64 = 0;
        let mut val: usize = 0;
        while val < 256
            invariant
                val <= 256,
                hist@.len() == 256,
                bin_total(hist@) <= u64::MAX,
                cumulative == prefix_sum(hist@, val as int),
                first_prefix_reaching(hist@, target as int, 0) == first_prefix_reaching(hist@, target as int, val as int),
            decreases 256 - val,
        {
            proof {
                lemma_prefix_sum_monotone(hist@, val + 1, 256);
            }
            cumulative = cumulative + hist[val];
            if cumulative >= target {
                return val as u8;
            }
            val = val + 1;
        }
        255
    }

    /// The mean value of a channel histogram over `count` samples, truncated and capped at
    /// 255; 0 when `count` is 0.
    pub fn mean_from_hist(hist: &[u64; 256], count: u64) -> (m: u8)
        requires
            weighted_prefix(hist@, 256) <= u64::MAX,
        ensures
            m == hist_mean(hist@, count as int),
    {
        if count == 0 {
            return 0;
        }
        let mut sum: u64 = 0;
        let mut val: usize = 0;
        while val < 256
            invariant
                val <= 256,
                hist@.len() == 256,
                weighted_prefix(hist@, 256) <= u64::MAX,
                sum == weighted_prefix(hist@, val as int),
            decreases 256 - val,
        {
            proof {
                lemma_weighted_prefix_monotone(hist@, val + 1, 256);
                assert(0 <= val * hist@[val as int]) by (nonlinear_arith)
                    requires 0 <= val, 0 <= hist@[val as int];
            }
            sum = sum + (val as u64) * hist[val];
            val = val + 1;
        }
        let q = sum / count;
        if q > 255 {
            255
        } else {
            q as u8
        }
    }

    /// Mean of the bins within `threshold` of `center_value` (an edge-aware average),
    /// truncated; `center_value` itself when no sample lies in that window.
    pub fn weighted_average_in_range(hist: &[u64; 256], center_value: u8, threshold: u8) -> (m: u8)
        requires
            bin_total(hist@) <= u64::MAX,
            weighted_prefix(hist@, 256) <= u64::MAX,
        ensures
            m == hist_weighted_average(hist@, center_value as int, threshold as int),
    {
        let cv = center_value as i32;
        let thr = threshold as i32;
        let min_val: usize = if cv - thr < 0 { 0 } else { (cv - thr) as usize };
        let max_val: usize = if cv + thr > 255 { 255 } else { (cv + thr) as usize };
        let mut sum: u64 = 0;
        let mut count: u64 = 0;
        let mut val: usize = min_val;
        proof {
            lemma_prefix_sum_monotone(hist@, min_val as int, max_val + 1);
            lemma_weighted_prefix_monotone(hist@, min_val as int, max_val + 1);
            lemma_prefix_sum_monotone(hist@, max_val + 1, 256);
            lemma_weighted_prefix_monotone(hist@, max_val + 1, 256);
        }
        while val <= max_val
            invariant
                min_val <= val <= max_val + 1,
                max_val <= 255,
                hist@.len() == 256,
                bin_total(hist@) <= u64::MAX,
                weighted_prefix(hist@, 256) <= u64::MAX,
                prefix_sum(hist@, max_val + 1) <= u64::MAX,
                weighted_prefix(hist@, max_val + 1) <= u64::MAX,
                sum == weighted_prefix(hist@, val as int) - weighted_prefix(hist@, min_val as int),
                count == prefix_sum(hist@, val as int) - prefix_sum(hist@, min_val as int),
            decreases max_val + 1 - val,
        {
            let freq = hist[val];
            proof {
                lemma_prefix_sum_monotone(hist@, 0, min_val as int);
                lemma_weighted_prefix_monotone(hist@, 0, min_val as int);
                lemma_prefix_sum_monotone(hist@, val + 1, max_val + 1);
                lemma_weighted_prefix_monotone(hist@, val + 1, max_val + 1);
                assert(0 <= val * hist@[val as int]) by (nonlinear_arith)
                    requires 0 <= val, 0 <= hist@[val as int];
            }
            if freq > 0 {
                sum = sum + (val as u64) * freq;
                count = count + freq;
            } else {
                assert(val * hist@[val as int] == 0) by (nonlinear_arith)
                    requires hist@[val as int] == 0;
            }
            val = val + 1;
        }
        if count == 0 {
            center_value
        } else {
            let q = sum / count;
            if q > 255 {
                255
            } else {
                q as u8
            }
        }
    }

    /// Clip bounds `(low, high)` of `hist` that cut `clip_count` samples from each tail.
    pub fn clip_bounds_from_count(&self, hist: &[u64; 256], clip_count: u64) -> (b: (u8, u8))
        requires
            bin_total(hist@) <= u64::MAX,
        ensures
            b.0 == clip_bounds(hist@, clip_count as int).0,
            b.1 == clip_bounds(hist@, clip_count as int).1,
            b.0 <= b.1,
    {
        proof {
            lemma_clip_bounds_ordered(hist@, clip_count as int);
            lemma_first_reaching_range(hist@, clip_count as int, 0);
            lemma_last_reaching_range(hist@, clip_count as int, 255);
            lemma_last_nonzero_range(hist@, 255);
            if first_nonzero(hist@, 0) >= 0 {
                lemma_first_nonzero_found(hist@, 0);
            }
        }
        let lo0 = find_first_reaching(hist, clip_count);
        let hi0 = find_last_suffix_reaching(hist, clip_count);
        let lo: i32 = if lo0 < 0 { 0 } else { lo0 };
        let hi: i32 = if hi0 < 0 { 255 } else { hi0 };
        if lo >= hi {
            let mn = find_first_nonzero(hist);
            let mx = find_last_nonzero(hist);
            let a: i32 = if mn < 0 { 0 } else { mn };
            let b: i32 = if mx < 0 { 255 } else { mx };
            (a as u8, b as u8)
        } else {
            (lo as u8, hi as u8)
        }
    }

    /// Levels lookup table for `hist`: maps each value through the clip bounds for
    /// `clip_count` onto the full `0..=255` range.
    pub fn levels_lut_from_count(&self, hist: &[u64; 256], clip_count: u64) -> (lut: [u8; 256])
        requires
            bin_total(hist@) <= u64::MAX,
        ensures
            forall|i: int|
                0 <= i < 256 ==> lut@[i] == levels_value(
                    clip_bounds(hist@, clip_count as int).0,
                    clip_bounds(hist@, clip_count as int).1,
                    i,
                ),
    {
        let (lo, hi) = self.clip_bounds_from_count(hist, clip_count);
        let lo_i = lo as i32;
        let hi_i = hi as i32;
        let denom: i32 = if hi_i - lo_i > 1 { hi_i - lo_i } else { 1 };
        let mut lut: [u8; 256] = [0u8; 256];
        let mut i: i32 = 0;
        while i < 256
            invariant
                0 <= i <= 256,
                0 <= lo_i <= hi_i <= 255,
                denom == (if hi_i - lo_i > 1 { hi_i - lo_i } else { 1 }),
                lut@.len() == 256,
                forall|k: int| 0 <= k < i ==> lut@[k] == levels_value(lo_i as int, hi_i as int, k),
            decreases 256 - i,
        {
            proof {
                lemma_levels_value_range(lo_i as int, hi_i as int, i as int);
            }
            let val: i32 = if i <= lo_i {
                0
            } else if i >= hi_i {
                255
            } else {
                (2 * (i - lo_i) * 255 + denom) / (2 * denom)
            };
            lut[i as usize] = val as u8;
            i = i + 1;
        }
        lut
    }

    /// Median of the red channel over `count` samples.
    pub fn red_median(&self, count: u64) -> (m: u8)
        requires
            bin_total(self.spec_red()) <= u64::MAX,
        ensures
            m == hist_median(self.spec_red(), count as int),
    {
        Self::median_from_hist(&self.red, count)
    }

    /// Mean of the red channel over `count` samples.
    pub fn red_mean(&self, count: u64) -> (m: u8)
        requires
            weighted_prefix(self.spec_red(), 256) <= u64::MAX,
        ensures
            m == hist_mean(self.spec_red(), count as int),
    {
        Self::mean_from_hist(&self.red, count)
    }

    /// Edge-aware average of the red channel around `center_value`.
    pub fn red_weighted_average(&self, center_value: u8, threshold: u8) -> (m: u8)
        requires
            bin_total(self.spec_red()) <= u64::MAX,
            weighted_prefix(self.spec_red(), 256) <= u64::MAX,
        ensures
            m == hist_weighted_average(self.spec_red(), center_value as int, threshold as int),
    {
        Self::weighted_average_in_range(&self.red, center_value, threshold)
    }

    /// Clip bounds of the red channel for `clip_count` samples per tail.
    pub fn red_clip_bounds_for_count(&self, clip_count: u64) -> (b: (u8, u8))
        requires
            bin_total(self.spec_red()) <= u64::MAX,
        ensures
            b.0 == clip_bounds(self.spec_red(), clip_count as int).0,
            b.1 == clip_bounds(self.spec_red(), clip_count as int).1,
    {
        self.clip_bounds_from_count(&self.red, clip_count)
    }

    /// Levels lookup table of the red channel for `clip_count` samples per tail.
    pub fn red_levels_lut_for_count(&self, clip_count: u64) -> (lut: [u8; 256])
        requires
            bin_total(self.spec_red()) <= u64::MAX,
        ensures
            forall|i: int|
                0 <= i < 256 ==> lut@[i] == levels_value(
                    clip_bounds(self.spec_red(), clip_count as int).0,
                    clip_bounds(self.spec_red(), clip_count as int).1,
                    i,
                ),
    {
        self.levels_lut_from_count(&self.red, clip_count)
    }

    /// Median of the green channel over `count` samples.
    pub fn green_median(&self, count: u64) -> (m: u8)
        requires
            bin_total(self.spec_green()) <= u64::MAX,
        ensures
            m == hist_median(self.spec_green(), count as int),
    {
        Self::median_from_hist(&self.green, count)
    }

    /// Mean of the green channel over `count` samples.
    pub fn green_mean(&self, count: u64) -> (m: u8)
        requires
            weighted_prefix(self.spec_green(), 256) <= u64::MAX,
        ensures
            m == hist_mean(self.spec_green(), count as int),
    {
        Self::mean_from_hist(&self.green, count)
    }

    /// Edge-aware average of the green channel around `center_value`.
    pub fn green_weighted_average(&self, center_value: u8, threshold: u8) -> (m: u8)
        requires
            bin_total(self.spec_green()) <= u64::MAX,
            weighted_prefix(self.spec_green(), 256) <= u64::MAX,
        ensures
            m == hist_weighted_average(self.spec_green(), center_value as int, threshold as int),
    {
        Self::weighted_average_in_range(&self.green, center_value, threshold)
    }

    /// Clip bounds of the green channel for `clip_count` samples per tail.
    pub fn green_clip_bounds_for_count(&self, clip_count: u64) -> (b: (u8, u8))
        requires
            bin_total(self.spec_green()) <= u64::MAX,
        ensures
            b.0 == clip_bounds(self.spec_green(), clip_count as int).0,
            b.1 == clip_bounds(self.spec_green(), clip_count as int).1,
    {
        self.clip_bounds_from_count(&self.green, clip_count)
    }

    /// Levels lookup table of the green channel for `clip_count` samples per tail.
    pub fn green_levels_lut_for_count(&self, clip_count: u64) -> (lut: [u8; 256])
        requires
            bin_total(self.spec_green()) <= u64::MAX,
        ensures
            forall|i: int|
                0 <= i < 256 ==> lut@[i] == levels_value(
                    clip_bounds(self.spec_green(), clip_count as int).0,
                    clip_bounds(self.spec_green(), clip_count as int).1,
                    i,
                ),
    {
        self.levels_lut_from_count(&self.green, clip_count)
    }

    /// Median of the blue channel over `count` samples.
    pub fn blue_median(&self, count: u64) -> (m: u8)
        requires
            bin_total(self.spec_blue()) <= u64::MAX,
        ensures
            m == hist_median(self.spec_blue(), count as int),
    {
        Self::median_from_hist(&self.blue, count)
    }

    /// Mean of the blue channel over `count` samples.
    pub fn blue_mean(&self, count: u64) -> (m: u8)
        requires
            weighted_prefix(self.spec_blue(), 256) <= u64::MAX,
        ensures
            m == hist_mean(self.spec_blue(), count as int),
    {
        Self::mean_from_hist(&self.blue, count)
    }

    /// Edge-aware average of the blue channel around `center_value`.
    pub fn blue_weighted_average(&self, center_value: u8, threshold: u8) -> (m: u8)
        requires
            bin_total(self.spec_blue()) <= u64::MAX,
            weighted_prefix(self.spec_blue(), 256) <= u64::MAX,
        ensures
            m == hist_weighted_average(self.spec_blue(), center_value as int, threshold as int),
    {
        Self::weighted_average_in_range(&self.blue, center_value, threshold)
    }

    /// Clip bounds of the blue channel for `clip_count` samples per tail.
    pub fn blue_clip_bounds_for_count(&self, clip_count: u64) -> (b: (u8, u8))
        requires
            bin_total(self.spec_blue()) <= u64::MAX,
        ensures
            b.0 == clip_bounds(self.spec_blue(), clip_count as int).0,
            b.1 == clip_bounds(self.spec_blue(), clip_count as int).1,
    {
        self.clip_bounds_from_count(&self.blue, clip_count)
    }

    /// Levels lookup table of the blue channel for `clip_count` samples per tail.
    pub fn blue_levels_lut_for_count(&self, clip_count: u64) -> (lut: [u8; 256])
        requires
            bin_total(self.spec_blue()) <= u64::MAX,
        ensures
            forall|i: int|
                0 <= i < 256 ==> lut@[i] == levels_value(
                    clip_bounds(self.spec_blue(), clip_count as int).0,
                    clip_bounds(self.spec_blue(), clip_count as int).1,
                    i,
                ),
    {
        self.levels_lut_from_count(&self.blue, clip_count)
    }

    /// Medians of the red, green and blue channels, each over the red-channel total.
    pub fn rgb_medians(&self) -> (m: (u8, u8, u8))
        requires
            bin_total(self.spec_red()) <= u64::MAX,
            bin_total(self.spec_green()) <= u64::MAX,
            bin_total(self.spec_blue()) <= u64::MAX,
        ensures
            m.0 == hist_median(self.spec_red(), bin_total(self.spec_red())),
            m.1 == hist_median(self.spec_green(), bin_total(self.spec_red())),
            m.2 == hist_median(self.spec_blue(), bin_total(self.spec_red())),
    {
        let total = self.total_pixels();
        (
            Self::median_from_hist(&self.red, total),
            Self::median_from_hist(&self.green, total),
            Self::median_from_hist(&self.blue, total),
        )
    }

    /// The red bins.
    pub fn red(&self) -> (r: &[u64; 256])
        ensures
            r@ == self.spec_red(),
    {
        &self.red
    }

    /// The green bins.
    pub fn green(&self) -> (r: &[u64; 256])
        ensures
            r@ == self.spec_green(),
    {
        &self.green
    }

    /// The blue bins.
    pub fn blue(&self) -> (r: &[u64; 256])
        ensures
            r@ == self.spec_blue(),
    {
        &self.blue
    }

    /// The alpha bins.
    pub fn alpha(&self) -> (r: &[u64; 256])
        ensures
            r@ == self.spec_alpha(),
    {
        &self.alpha
    }

    /// The number of pixels counted: the sum of the red bins.
    pub fn total_pixels(&self) -> (t: u64)
        requires
            bin_total(self.spec_red()) <= u64::MAX,
        ensures
            t == bin_total(self.spec_red()),
    {
        sum_bins(&self.red)
    }

    /// Resets every bin of every channel to zero.
    pub fn clear(&mut self)
        ensures
            final(self).spec_shape(),
            forall|i: int|
                0 <= i < 256 ==> final(self).spec_red()[i] == 0 && final(self).spec_green()[i] == 0
                    && final(self).spec_blue()[i] == 0 && final(self).spec_alpha()[i] == 0,
    {
        self.red = [0u64; 256];
        self.green = [0u64; 256];
        self.blue = [0u64; 256];
        self.alpha = [0u64; 256];
    }

    /// Mutable access to the red, green and blue bins.
    pub fn rgb_mut(&mut self) -> (res: (&mut [u64; 256], &mut [u64; 256], &mut [u64; 256]))
        ensures
            (*res.0)@ == old(self).spec_red(),
            (*res.1)@ == old(self).spec_green(),
            (*res.2)@ == old(self).spec_blue(),
            final(self).spec_red() == (*final(res.0))@,
            final(self).spec_green() == (*final(res.1))@,
            final(self).spec_blue() == (*final(res.2))@,
            final(self).spec_alpha() == old(self).spec_alpha(),
    {
        (&mut self.red, &mut self.green, &mut self.blue)
    }
}

} // verus!
