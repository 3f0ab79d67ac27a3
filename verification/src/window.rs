//! Square neighbourhoods of a pixel with border repetition, and their histograms.
use vstd::prelude::*;
use crate::grid::{px_index, clamp_to, lemma_px_index_bounds, lemma_side_bound};
use crate::histogram::{Histogram, bin_total, lemma_prefix_sum_update, lemma_prefix_sum_zero};

verus! {

/// Side length `2r + 1` of the window of radius `r`.
pub open spec fn side(r: int) -> int {
    2 * r + 1
}

/// Channel `c` of the window pixel at offsets `(i, j)` in `0..2r+1` around `(x, y)`;
/// coordinates outside the image are clamped to its border.
pub open spec fn win_byte(src: Seq<u8>, w: int, h: int, x: int, y: int, r: int, i: int, j: int, c: int) -> u8 {
    src[px_index(w, clamp_to(x - r + i, w), clamp_to(y - r + j, h), c)]
}

/// How many of the first `i` pixels of window row `j` have channel `c` equal to `v`.
pub open spec fn row_count(
    src: Seq<u8>,
    w: int,
    h: int,
    x: int,
    y: int,
    r: int,
    c: int,
    v: int,
    j: int,
    i: int,
) -> nat
    decreases i,
{
    if i <= 0 {
        0
    } else {
        row_count(src, w, h, x, y, r, c, v, j, i - 1) + (if win_byte(src, w, h, x, y, r, i - 1, j, c)
            == v {
            1nat
        } else {
            0nat
        })
    }
}

/// How many pixels of the first `j` window rows have channel `c` equal to `v`.
pub open spec fn win_count(src: Seq<u8>, w: int, h: int, x: int, y: int, r: int, c: int, v: int, j: int) -> nat
    decreases j,
{
    if j <= 0 {
        0
    } else {
        win_count(src, w, h, x, y, r, c, v, j - 1) + row_count(src, w, h, x, y, r, c, v, j - 1, side(r))
    }
}

/// The histogram of channel `c` over the whole window of radius `r` around `(x, y)`.
pub open spec fn win_hist(src: Seq<u8>, w: int, h: int, x: int, y: int, r: int, c: int) -> Seq<u64> {
    Seq::new(256, |v: int| win_count(src, w, h, x, y, r, c, v, side(r)) as u64)
}

/// How many of the first `j` pixels of window column `i` have channel `c` equal to `v`.
pub open spec fn col_count(
    src: Seq<u8>,
    w: int,
    h: int,
    x: int,
    y: int,
    r: int,
    c: int,
    v: int,
    i: int,
    j: int,
) -> nat
    decreases j,
{
    if j <= 0 {
        0
    } else {
        col_count(src, w, h, x, y, r, c, v, i, j - 1) + (if win_byte(src, w, h, x, y, r, i, j - 1, c) == v {
            1nat
        } else {
            0nat
        })
    }
}

/// Sliding a window row one pixel right drops its first pixel and gains a new last one.
pub proof fn lemma_row_shift(src: Seq<u8>, w: int, h: int, x: int, y: int, r: int, c: int, v: int, j: int, k: int)
    requires
        k >= 1,
    ensures
        row_count(src, w, h, x, y, r, c, v, j, k) + (if win_byte(src, w, h, x - 1, y, r, 0, j, c) == v {
            1int
        } else {
            0int
        }) == row_count(src, w, h, x - 1, y, r, c, v, j, k) + (if win_byte(src, w, h, x, y, r, k - 1, j, c)
            == v {
            1int
        } else {
            0int
        }),
    decreases k,
{
    if k > 1 {
        lemma_row_shift(src, w, h, x, y, r, c, v, j, k - 1);
        assert(win_byte(src, w, h, x - 1, y, r, k - 1, j, c) == win_byte(src, w, h, x, y, r, k - 2, j, c));
    } else {
        assert(row_count(src, w, h, x, y, r, c, v, j, 0) == 0);
        assert(row_count(src, w, h, x - 1, y, r, c, v, j, 0) == 0);
    }
}

/// Sliding the whole window one pixel right drops its first column and gains a new last one.
pub proof fn lemma_win_shift(src: Seq<u8>, w: int, h: int, x: int, y: int, r: int, c: int, v: int, j: int)
    requires
        r >= 0,
        j >= 0,
    ensures
        win_count(src, w, h, x, y, r, c, v, j) + col_count(src, w, h, x - 1, y, r, c, v, 0, j) == win_count(
            src,
            w,
            h,
            x - 1,
            y,
            r,
            c,
            v,
            j,
        ) + col_count(src, w, h, x, y, r, c, v, side(r) - 1, j),
    decreases j,
{
    if j > 0 {
        lemma_win_shift(src, w, h, x, y, r, c, v, j - 1);
        lemma_row_shift(src, w, h, x, y, r, c, v, j - 1, side(r));
    }
}

/// The first window pixel of a row is counted in that row.
pub proof fn lemma_row_has_first(src: Seq<u8>, w: int, h: int, x: int, y: int, r: int, c: int, v: int, j: int, k: int)
    requires
        k >= 1,
    ensures
        row_count(src, w, h, x, y, r, c, v, j, k) >= (if win_byte(src, w, h, x, y, r, 0, j, c) == v {
            1int
        } else {
            0int
        }),
    decreases k,
{
    if k > 1 {
        lemma_row_has_first(src, w, h, x, y, r, c, v, j, k - 1);
    } else {
        assert(row_count(src, w, h, x, y, r, c, v, j, 0) == 0);
    }
}

/// The first window column is part of the window.
pub proof fn lemma_first_col_le_win(src: Seq<u8>, w: int, h: int, x: int, y: int, r: int, c: int, v: int, j: int)
    requires
        r >= 0,
        j >= 0,
    ensures
        col_count(src, w, h, x, y, r, c, v, 0, j) <= win_count(src, w, h, x, y, r, c, v, j),
    decreases j,
{
    if j > 0 {
        lemma_first_col_le_win(src, w, h, x, y, r, c, v, j - 1);
        lemma_row_has_first(src, w, h, x, y, r, c, v, j - 1, side(r));
    }
}

/// A column count only grows with more rows.
pub proof fn lemma_col_count_monotone(
    src: Seq<u8>,
    w: int,
    h: int,
    x: int,
    y: int,
    r: int,
    c: int,
    v: int,
    i: int,
    j: int,
    k: int,
)
    requires
        0 <= j <= k,
    ensures
        col_count(src, w, h, x, y, r, c, v, i, j) <= col_count(src, w, h, x, y, r, c, v, i, k),
    decreases k - j,
{
    if j < k {
        lemma_col_count_monotone(src, w, h, x, y, r, c, v, i, j, k - 1);
    }
}

/// A row count covers at most the pixels it looks at.
pub proof fn lemma_row_count_le(
    src: Seq<u8>,
    w: int,
    h: int,
    x: int,
    y: int,
    r: int,
    c: int,
    v: int,
    j: int,
    i: int,
)
    requires
        i >= 0,
    ensures
        row_count(src, w, h, x, y, r, c, v, j, i) <= i,
    decreases i,
{
    if i > 0 {
        lemma_row_count_le(src, w, h, x, y, r, c, v, j, i - 1);
    }
}

/// A window count covers at most the pixels it looks at.
pub proof fn lemma_win_count_le(src: Seq<u8>, w: int, h: int, x: int, y: int, r: int, c: int, v: int, j: int)
    requires
        j >= 0,
        r >= 0,
    ensures
        win_count(src, w, h, x, y, r, c, v, j) <= j * side(r),
    decreases j,
{
    if j > 0 {
        lemma_win_count_le(src, w, h, x, y, r, c, v, j - 1);
        lemma_row_count_le(src, w, h, x, y, r, c, v, j - 1, side(r));
        assert((j - 1) * side(r) + side(r) == j * side(r)) by (nonlinear_arith);
    }
}

/// A window whose pixel count fits a machine word has a side that fits 32 bits.
pub proof fn lemma_side_bound_u32(r: int)
    requires
        r >= 0,
        side(r) * side(r) <= usize::MAX,
    ensures
        side(r) <= u32::MAX,
{
    if side(r) > u32::MAX {
        assert(side(r) * side(r) > u64::MAX) by (nonlinear_arith)
            requires side(r) > u32::MAX;
    }
}

/// Reads channel `c` of the window pixel at offsets `(i, j)`, mirroring `win_byte`.
pub fn window_byte(src: &[u8], w: usize, h: usize, x: usize, y: usize, r: u32, i: u32, j: u32, c: usize) -> (b: u8)
    requires
        0 < w,
        0 < h,
        x < w,
        y < h,
        src@.len() == w * h * 4,
        i <= 2 * r + 1,
        j <= 2 * r + 1,
        c < 4,
    ensures
        b == win_byte(src@, w as int, h as int, x as int, y as int, r as int, i as int, j as int, c as int),
{
    let len = src.len();
    proof {
        lemma_side_bound(w as int, h as int);
    }
    let xx: i64 = x as i64 - r as i64 + i as i64;
    let yy: i64 = y as i64 - r as i64 + j as i64;
    let nx: usize = if xx < 0 { 0 } else if xx >= w as i64 { w - 1 } else { xx as usize };
    let ny: usize = if yy < 0 { 0 } else if yy >= h as i64 { h - 1 } else { yy as usize };
    proof {
        lemma_px_index_bounds(w as int, h as int, nx as int, ny as int, c as int);
    }
    src[(ny * w + nx) * 4 + c]
}

/// The red, green and blue histograms of the window of radius `r` around `(x, y)`.
pub fn window_histogram(src: &[u8], w: usize, h: usize, x: usize, y: usize, r: u32) -> (hist: Histogram)
    requires
        0 < w,
        0 < h,
        x < w,
        y < h,
        src@.len() == w * h * 4,
        side(r as int) * side(r as int) <= usize::MAX,
    ensures
        hist.spec_shape(),
        hist.spec_red() == win_hist(src@, w as int, h as int, x as int, y as int, r as int, 0),
        hist.spec_green() == win_hist(src@, w as int, h as int, x as int, y as int, r as int, 1),
        hist.spec_blue() == win_hist(src@, w as int, h as int, x as int, y as int, r as int, 2),
        bin_total(hist.spec_red()) == side(r as int) * side(r as int),
        bin_total(hist.spec_green()) == side(r as int) * side(r as int),
        bin_total(hist.spec_blue()) == side(r as int) * side(r as int),
{
    let ghost s = src@;
    let ghost (wi, hi, xi, yi, ri) = (w as int, h as int, x as int, y as int, r as int);
    proof {
        lemma_side_bound_u32(r as int);
    }
    let d: u32 = 2 * r + 1;
    let mut hist = Histogram::new();
    proof {
        lemma_prefix_sum_zero(hist.spec_red(), 256);
        lemma_prefix_sum_zero(hist.spec_green(), 256);
        lemma_prefix_sum_zero(hist.spec_blue(), 256);
    }
    let mut j: u32 = 0;
    while j < d
        invariant
            0 < w,
            0 < h,
            x < w,
            y < h,
            src@.len() == w * h * 4,
            s == src@,
            wi == w, hi == h, xi == x, yi == y, ri == r,
            d == side(ri),
            d * d <= usize::MAX,
            j <= d,
            hist.spec_shape(),
            forall|v: int|
                0 <= v < 256 ==> {
                    &&& hist.spec_red()[v] == win_count(s, wi, hi, xi, yi, ri, 0, v, j as int)
                    &&& hist.spec_green()[v] == win_count(s, wi, hi, xi, yi, ri, 1, v, j as int)
                    &&& hist.spec_blue()[v] == win_count(s, wi, hi, xi, yi, ri, 2, v, j as int)
                },
            bin_total(hist.spec_red()) == j * d,
            bin_total(hist.spec_green()) == j * d,
            bin_total(hist.spec_blue()) == j * d,
        decreases d - j,
    {
        let mut i: u32 = 0;
        while i < d
            invariant
                0 < w,
                0 < h,
                x < w,
                y < h,
                src@.len() == w * h * 4,
                s == src@,
                wi == w, hi == h, xi == x, yi == y, ri == r,
                d == side(ri),
                d * d <= usize::MAX,
                j < d,
                i <= d,
                hist.spec_shape(),
                forall|v: int|
                    0 <= v < 256 ==> {
                        &&& hist.spec_red()[v] == win_count(s, wi, hi, xi, yi, ri, 0, v, j as int)
                            + row_count(s, wi, hi, xi, yi, ri, 0, v, j as int, i as int)
                        &&& hist.spec_green()[v] == win_count(s, wi, hi, xi, yi, ri, 1, v, j as int)
                            + row_count(s, wi, hi, xi, yi, ri, 1, v, j as int, i as int)
                        &&& hist.spec_blue()[v] == win_count(s, wi, hi, xi, yi, ri, 2, v, j as int)
                            + row_count(s, wi, hi, xi, yi, ri, 2, v, j as int, i as int)
                    },
                bin_total(hist.spec_red()) == j * d + i,
                bin_total(hist.spec_green()) == j * d + i,
                bin_total(hist.spec_blue()) == j * d + i,
            decreases d - i,
        {
            let nr = window_byte(src, w, h, x, y, r, i, j, 0) as usize;
            let ng = window_byte(src, w, h, x, y, r, i, j, 1) as usize;
            let nb = window_byte(src, w, h, x, y, r, i, j, 2) as usize;
            proof {
                assert(j * d + i + 1 <= d * d) by (nonlinear_arith)
                    requires j < d, i < d;
                lemma_prefix_sum_update(hist.spec_red(), nr as int, (hist.spec_red()[nr as int] + 1) as u64, 256);
                lemma_prefix_sum_update(hist.spec_green(), ng as int, (hist.spec_green()[ng as int] + 1) as u64, 256);
                lemma_prefix_sum_update(hist.spec_blue(), nb as int, (hist.spec_blue()[nb as int] + 1) as u64, 256);
                crate::histogram::lemma_bin_le_prefix(hist.spec_red(), nr as int, 256);
                crate::histogram::lemma_bin_le_prefix(hist.spec_green(), ng as int, 256);
                crate::histogram::lemma_bin_le_prefix(hist.spec_blue(), nb as int, 256);
            }
            let (hr, hg, hb) = hist.rgb_mut();
            hr[nr] = hr[nr] + 1;
            hg[ng] = hg[ng] + 1;
            hb[nb] = hb[nb] + 1;
            i = i + 1;
        }
        proof {
            assert(j * d + d == (j + 1) * d) by (nonlinear_arith);
        }
        j = j + 1;
    }
    proof {
        assert(hist.spec_red() =~= win_hist(s, wi, hi, xi, yi, ri, 0));
        assert(hist.spec_green() =~= win_hist(s, wi, hi, xi, yi, ri, 1));
        assert(hist.spec_blue() =~= win_hist(s, wi, hi, xi, yi, ri, 2));
    }
    hist
}


/// Integer luminance `(299 r + 587 g + 114 b) / 1000` of a colour.
pub open spec fn luma(r: int, g: int, b: int) -> int {
    (299 * r + 587 * g + 114 * b) / 1000
}

/// Luminance of the window pixel at offsets `(i, j)`.
pub open spec fn win_luma(src: Seq<u8>, w: int, h: int, x: int, y: int, r: int, i: int, j: int) -> int {
    luma(
        win_byte(src, w, h, x, y, r, i, j, 0) as int,
        win_byte(src, w, h, x, y, r, i, j, 1) as int,
        win_byte(src, w, h, x, y, r, i, j, 2) as int,
    )
}

/// Smaller of two integers.
pub open spec fn min_int(a: int, b: int) -> int {
    if a <= b {
        a
    } else {
        b
    }
}

/// Larger of two integers.
pub open spec fn max_int(a: int, b: int) -> int {
    if a >= b {
        a
    } else {
        b
    }
}

/// Least luminance among the first `i` pixels of window row `j` (`i32::MAX` when none).
pub open spec fn row_min_luma(src: Seq<u8>, w: int, h: int, x: int, y: int, r: int, j: int, i: int) -> int
    decreases i,
{
    if i <= 0 {
        i32::MAX as int
    } else {
        min_int(row_min_luma(src, w, h, x, y, r, j, i - 1), win_luma(src, w, h, x, y, r, i - 1, j))
    }
}

/// Greatest luminance among the first `i` pixels of window row `j` (`i32::MIN` when none).
pub open spec fn row_max_luma(src: Seq<u8>, w: int, h: int, x: int, y: int, r: int, j: int, i: int) -> int
    decreases i,
{
    if i <= 0 {
        i32::MIN as int
    } else {
        max_int(row_max_luma(src, w, h, x, y, r, j, i - 1), win_luma(src, w, h, x, y, r, i - 1, j))
    }
}

/// Least luminance over the first `j` window rows.
pub open spec fn win_min_luma(src: Seq<u8>, w: int, h: int, x: int, y: int, r: int, j: int) -> int
    decreases j,
{
    if j <= 0 {
        i32::MAX as int
    } else {
        min_int(win_min_luma(src, w, h, x, y, r, j - 1), row_min_luma(src, w, h, x, y, r, j - 1, side(r)))
    }
}

/// Greatest luminance over the first `j` window rows.
pub open spec fn win_max_luma(src: Seq<u8>, w: int, h: int, x: int, y: int, r: int, j: int) -> int
    decreases j,
{
    if j <= 0 {
        i32::MIN as int
    } else {
        max_int(win_max_luma(src, w, h, x, y, r, j - 1), row_max_luma(src, w, h, x, y, r, j - 1, side(r)))
    }
}

/// The running row maximum bounds every luminance it has seen, and is bounded by any
/// common upper bound of them.
pub proof fn lemma_row_max_luma(src: Seq<u8>, w: int, h: int, x: int, y: int, r: int, j: int, i: int, bound: int)
    requires
        0 <= i,
    ensures
        forall|k: int| 0 <= k < i ==> row_max_luma(src, w, h, x, y, r, j, i) >= #[trigger] win_luma(src, w, h, x, y, r, k, j),
        i > 0 && (forall|k: int| 0 <= k < i ==> #[trigger] win_luma(src, w, h, x, y, r, k, j) <= bound)
            ==> row_max_luma(src, w, h, x, y, r, j, i) <= bound,
    decreases i,
{
    if i > 0 {
        lemma_row_max_luma(src, w, h, x, y, r, j, i - 1, bound);
        if forall|k: int| 0 <= k < i ==> #[trigger] win_luma(src, w, h, x, y, r, k, j) <= bound {
            assert(win_luma(src, w, h, x, y, r, i - 1, j) <= bound);
            assert(win_luma(src, w, h, x, y, r, i - 1, j) >= 0 && win_luma(src, w, h, x, y, r, i - 1, j) <= 255);
            if i > 1 {
                assert(forall|k: int| 0 <= k < i - 1 ==> #[trigger] win_luma(src, w, h, x, y, r, k, j) <= bound);
            }
        }
    }
}

/// The running row minimum is at most every luminance it has seen, and at least any
/// common lower bound of them.
pub proof fn lemma_row_min_luma(src: Seq<u8>, w: int, h: int, x: int, y: int, r: int, j: int, i: int, bound: int)
    requires
        0 <= i,
    ensures
        forall|k: int| 0 <= k < i ==> row_min_luma(src, w, h, x, y, r, j, i) <= #[trigger] win_luma(src, w, h, x, y, r, k, j),
        i > 0 && (forall|k: int| 0 <= k < i ==> #[trigger] win_luma(src, w, h, x, y, r, k, j) >= bound)
            ==> row_min_luma(src, w, h, x, y, r, j, i) >= bound,
    decreases i,
{
    if i > 0 {
        lemma_row_min_luma(src, w, h, x, y, r, j, i - 1, bound);
        if forall|k: int| 0 <= k < i ==> #[trigger] win_luma(src, w, h, x, y, r, k, j) >= bound {
            assert(win_luma(src, w, h, x, y, r, i - 1, j) >= bound);
            assert(win_luma(src, w, h, x, y, r, i - 1, j) >= 0 && win_luma(src, w, h, x, y, r, i - 1, j) <= 255);
            if i > 1 {
                assert(forall|k: int| 0 <= k < i - 1 ==> #[trigger] win_luma(src, w, h, x, y, r, k, j) >= bound);
            }
        }
    }
}

/// The window maximum over the first `jj` rows bounds every luminance of those rows, and
/// is bounded by any common upper bound of them.
pub proof fn lemma_win_max_luma(src: Seq<u8>, w: int, h: int, x: int, y: int, r: int, jj: int, bound: int)
    requires
        0 <= jj,
        0 <= r,
    ensures
        forall|k: int, j: int| 0 <= k < side(r) && 0 <= j < jj ==> win_max_luma(src, w, h, x, y, r, jj)
            >= #[trigger] win_luma(src, w, h, x, y, r, k, j),
        jj > 0 && (forall|k: int, j: int| 0 <= k < side(r) && 0 <= j < jj ==> #[trigger] win_luma(src, w, h, x, y, r, k, j)
            <= bound) ==> win_max_luma(src, w, h, x, y, r, jj) <= bound,
    decreases jj,
{
    if jj > 0 {
        lemma_win_max_luma(src, w, h, x, y, r, jj - 1, bound);
        lemma_row_max_luma(src, w, h, x, y, r, jj - 1, side(r), bound);
        if jj > 1 && (forall|k: int, j: int| 0 <= k < side(r) && 0 <= j < jj ==> #[trigger] win_luma(src, w, h, x, y, r, k, j) <= bound) {
            assert(forall|k: int, j: int| 0 <= k < side(r) && 0 <= j < jj - 1 ==> #[trigger] win_luma(src, w, h, x, y, r, k, j) <= bound);
        }
        if (forall|k: int, j: int| 0 <= k < side(r) && 0 <= j < jj ==> #[trigger] win_luma(src, w, h, x, y, r, k, j) <= bound) {
            assert(forall|k: int| 0 <= k < side(r) ==> #[trigger] win_luma(src, w, h, x, y, r, k, jj - 1) <= bound);
            assert(row_max_luma(src, w, h, x, y, r, jj - 1, side(r)) <= bound);
            let l0 = win_luma(src, w, h, x, y, r, 0, jj - 1);
            assert(0 <= l0 <= 255);
            assert(row_max_luma(src, w, h, x, y, r, jj - 1, side(r)) >= l0);
            if jj > 1 {
                assert(win_max_luma(src, w, h, x, y, r, jj - 1) <= bound);
            } else {
                assert(win_max_luma(src, w, h, x, y, r, 0) == i32::MIN as int);
            }
        }
    }
}

/// The window minimum over the first `jj` rows is at most every luminance of those rows,
/// and at least any common lower bound of them.
pub proof fn lemma_win_min_luma(src: Seq<u8>, w: int, h: int, x: int, y: int, r: int, jj: int, bound: int)
    requires
        0 <= jj,
        0 <= r,
    ensures
        forall|k: int, j: int| 0 <= k < side(r) && 0 <= j < jj ==> win_min_luma(src, w, h, x, y, r, jj)
            <= #[trigger] win_luma(src, w, h, x, y, r, k, j),
        jj > 0 && (forall|k: int, j: int| 0 <= k < side(r) && 0 <= j < jj ==> #[trigger] win_luma(src, w, h, x, y, r, k, j)
            >= bound) ==> win_min_luma(src, w, h, x, y, r, jj) >= bound,
    decreases jj,
{
    if jj > 0 {
        lemma_win_min_luma(src, w, h, x, y, r, jj - 1, bound);
        lemma_row_min_luma(src, w, h, x, y, r, jj - 1, side(r), bound);
        if jj > 1 && (forall|k: int, j: int| 0 <= k < side(r) && 0 <= j < jj ==> #[trigger] win_luma(src, w, h, x, y, r, k, j) >= bound) {
            assert(forall|k: int, j: int| 0 <= k < side(r) && 0 <= j < jj - 1 ==> #[trigger] win_luma(src, w, h, x, y, r, k, j) >= bound);
        }
        if (forall|k: int, j: int| 0 <= k < side(r) && 0 <= j < jj ==> #[trigger] win_luma(src, w, h, x, y, r, k, j) >= bound) {
            assert(forall|k: int| 0 <= k < side(r) ==> #[trigger] win_luma(src, w, h, x, y, r, k, jj - 1) >= bound);
            assert(row_min_luma(src, w, h, x, y, r, jj - 1, side(r)) >= bound);
            let l0 = win_luma(src, w, h, x, y, r, 0, jj - 1);
            assert(0 <= l0 <= 255);
            assert(row_min_luma(src, w, h, x, y, r, jj - 1, side(r)) <= l0);
            if jj > 1 {
                assert(win_min_luma(src, w, h, x, y, r, jj - 1) >= bound);
            } else {
                assert(win_min_luma(src, w, h, x, y, r, 0) == i32::MAX as int);
            }
        }
    }
}

/// Integer luminance of three bytes.
pub fn luma_of(r: u8, g: u8, b: u8) -> (l: i32)
    ensures
        l == luma(r as int, g as int, b as int),
        0 <= l <= 255,
{
    (299 * (r as i32) + 587 * (g as i32) + 114 * (b as i32)) / 1000
}

/// Least and greatest luminance over the window of radius `r` around `(x, y)`.
pub fn window_luma_range(src: &[u8], w: usize, h: usize, x: usize, y: usize, r: u32) -> (m: (i32, i32))
    requires
        0 < w,
        0 < h,
        x < w,
        y < h,
        src@.len() == w * h * 4,
        side(r as int) * side(r as int) <= usize::MAX,
    ensures
        m.0 == win_min_luma(src@, w as int, h as int, x as int, y as int, r as int, side(r as int)),
        m.1 == win_max_luma(src@, w as int, h as int, x as int, y as int, r as int, side(r as int)),
{
    let ghost s = src@;
    let ghost (wi, hi, xi, yi, ri) = (w as int, h as int, x as int, y as int, r as int);
    proof {
        lemma_side_bound_u32(r as int);
    }
    let d: u32 = 2 * r + 1;
    let mut min_l: i32 = i32::MAX;
    let mut max_l: i32 = i32::MIN;
    let mut j: u32 = 0;
    while j < d
        invariant
            0 < w,
            0 < h,
            x < w,
            y < h,
            src@.len() == w * h * 4,
            s == src@,
            wi == w, hi == h, xi == x, yi == y, ri == r,
            d == side(ri),
            j <= d,
            min_l == win_min_luma(s, wi, hi, xi, yi, ri, j as int),
            max_l == win_max_luma(s, wi, hi, xi, yi, ri, j as int),
        decreases d - j,
    {
        let mut i: u32 = 0;
        while i < d
            invariant
                0 < w,
                0 < h,
                x < w,
                y < h,
                src@.len() == w * h * 4,
                s == src@,
                wi == w, hi == h, xi == x, yi == y, ri == r,
                d == side(ri),
                j < d,
                i <= d,
                min_l == min_int(win_min_luma(s, wi, hi, xi, yi, ri, j as int), row_min_luma(s, wi, hi, xi, yi, ri, j as int, i as int)),
                max_l == max_int(win_max_luma(s, wi, hi, xi, yi, ri, j as int), row_max_luma(s, wi, hi, xi, yi, ri, j as int, i as int)),
            decreases d - i,
        {
            let nr = window_byte(src, w, h, x, y, r, i, j, 0);
            let ng = window_byte(src, w, h, x, y, r, i, j, 1);
            let nb = window_byte(src, w, h, x, y, r, i, j, 2);
            let l = luma_of(nr, ng, nb);
            if l < min_l {
                min_l = l;
            }
            if l > max_l {
                max_l = l;
            }
            i = i + 1;
        }
        j = j + 1;
    }
    (min_l, max_l)
}

/// Sum of `f(v)` over `0 <= v < k`.
pub open spec fn sum_below(f: spec_fn(int) -> int, k: int) -> int
    decreases k,
{
    if k <= 0 {
        0
    } else {
        sum_below(f, k - 1) + f(k - 1)
    }
}

/// Sums of functions that agree below `k` agree.
proof fn lemma_sum_below_ext(f: spec_fn(int) -> int, g: spec_fn(int) -> int, k: int)
    requires
        forall|v: int| 0 <= v < k ==> #[trigger] f(v) == g(v),
    ensures
        sum_below(f, k) == sum_below(g, k),
    decreases k,
{
    if k > 0 {
        lemma_sum_below_ext(f, g, k - 1);
    }
}

/// The sum of a pointwise sum is the sum of the sums.
proof fn lemma_sum_below_add(f: spec_fn(int) -> int, g: spec_fn(int) -> int, k: int)
    ensures
        sum_below(|v: int| f(v) + g(v), k) == sum_below(f, k) + sum_below(g, k),
    decreases k,
{
    if k > 0 {
        lemma_sum_below_add(f, g, k - 1);
    }
}

/// Summing the indicator of `b` over `0..k` counts whether `b` lies below `k`.
proof fn lemma_sum_below_indicator(b: int, k: int)
    requires
        0 <= b,
    ensures
        sum_below(|v: int| if b == v { 1int } else { 0int }, k) == if b < k { 1int } else { 0int },
    decreases k,
{
    if k > 0 {
        lemma_sum_below_indicator(b, k - 1);
    }
}

/// The bins of a histogram given by `f` sum like `f` itself.
proof fn lemma_prefix_sum_of(f: spec_fn(int) -> int, k: int)
    requires
        0 <= k <= 256,
        forall|v: int| 0 <= v < 256 ==> 0 <= #[trigger] f(v) <= u64::MAX,
    ensures
        crate::histogram::prefix_sum(Seq::new(256, |v: int| f(v) as u64), k) == sum_below(f, k),
    decreases k,
{
    if k > 0 {
        lemma_prefix_sum_of(f, k - 1);
    }
}

/// Over all values, the counts of the first `i` pixels of a window row add up to `i`.
proof fn lemma_row_counts_total(src: Seq<u8>, w: int, h: int, x: int, y: int, r: int, c: int, j: int, i: int)
    requires
        0 <= i,
    ensures
        sum_below(|v: int| row_count(src, w, h, x, y, r, c, v, j, i) as int, 256) == i,
    decreases i,
{
    let f = |v: int| row_count(src, w, h, x, y, r, c, v, j, i) as int;
    if i == 0 {
        lemma_sum_below_ext(f, |v: int| 0int, 256);
        lemma_sum_below_zero(256);
    } else {
        lemma_row_counts_total(src, w, h, x, y, r, c, j, i - 1);
        let b = win_byte(src, w, h, x, y, r, i - 1, j, c) as int;
        let g = |v: int| row_count(src, w, h, x, y, r, c, v, j, i - 1) as int;
        let e = |v: int| if b == v { 1int } else { 0int };
        lemma_sum_below_add(g, e, 256);
        lemma_sum_below_ext(f, |v: int| g(v) + e(v), 256);
        lemma_sum_below_indicator(b, 256);
    }
}

/// The sum of zeros is zero.
proof fn lemma_sum_below_zero(k: int)
    ensures
        sum_below(|v: int| 0int, k) == 0,
    decreases k,
{
    if k > 0 {
        lemma_sum_below_zero(k - 1);
    }
}

/// Over all values, the counts of the first `j` window rows add up to `j` rows of pixels.
proof fn lemma_win_counts_total(src: Seq<u8>, w: int, h: int, x: int, y: int, r: int, c: int, j: int)
    requires
        0 <= j,
        0 <= r,
    ensures
        sum_below(|v: int| win_count(src, w, h, x, y, r, c, v, j) as int, 256) == j * side(r),
    decreases j,
{
    let f = |v: int| win_count(src, w, h, x, y, r, c, v, j) as int;
    if j == 0 {
        lemma_sum_below_ext(f, |v: int| 0int, 256);
        lemma_sum_below_zero(256);
    } else {
        lemma_win_counts_total(src, w, h, x, y, r, c, j - 1);
        lemma_row_counts_total(src, w, h, x, y, r, c, j - 1, side(r));
        let g = |v: int| win_count(src, w, h, x, y, r, c, v, j - 1) as int;
        let e = |v: int| row_count(src, w, h, x, y, r, c, v, j - 1, side(r)) as int;
        lemma_sum_below_add(g, e, 256);
        lemma_sum_below_ext(f, |v: int| g(v) + e(v), 256);
        assert((j - 1) * side(r) + side(r) == j * side(r)) by (nonlinear_arith);
    }
}

/// A window of radius `r` holds `side(r) * side(r)` samples of each channel.
pub proof fn lemma_win_hist_total(src: Seq<u8>, w: int, h: int, x: int, y: int, r: int, c: int)
    requires
        0 <= r,
        side(r) * side(r) <= u64::MAX,
    ensures
        bin_total(win_hist(src, w, h, x, y, r, c)) == side(r) * side(r),
{
    let f = |v: int| win_count(src, w, h, x, y, r, c, v, side(r)) as int;
    lemma_win_counts_total(src, w, h, x, y, r, c, side(r));
    assert forall|v: int| 0 <= v < 256 implies 0 <= #[trigger] f(v) <= u64::MAX by {
        lemma_win_count_le(src, w, h, x, y, r, c, v, side(r));
    }
    lemma_prefix_sum_of(f, 256);
    assert(win_hist(src, w, h, x, y, r, c) =~= Seq::new(256, |v: int| f(v) as u64));
}

} // verus!
