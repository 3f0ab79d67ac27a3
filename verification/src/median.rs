//! Median filtering of RGBA buffers.
use vstd::prelude::*;
use crate::grid::{px_index, pixels_filled, lemma_px_of_linear, lemma_pixels_filled_push, lemma_pixels_filled_all, lemma_side_bound};
use crate::histogram::{is_kth_value, lemma_first_above_is_kth, Histogram, hist_median};
use crate::histogram::{bin_total, lemma_prefix_sum_update, lemma_bin_le_prefix};
use crate::window::{lemma_win_hist_total, side, win_hist, win_count, col_count, window_histogram, window_byte, lemma_win_shift,
    lemma_first_col_le_win, lemma_col_count_monotone, lemma_side_bound_u32};

verus! {

/// Output of the median filter at pixel `(x, y)`, channel `c`: the median of the
/// window of radius `r` for red, green and blue; the source alpha for `c == 3`.
pub open spec fn median_px(src: Seq<u8>, w: int, h: int, r: int, x: int, y: int, c: int) -> u8 {
    if c == 3 {
        src[px_index(w, x, y, 3)]
    } else {
        hist_median(win_hist(src, w, h, x, y, r, c), side(r) * side(r)) as u8
    }
}

/// `median_px` as a function of position and channel.
pub open spec fn median_fn(src: Seq<u8>, w: int, h: int, r: int) -> spec_fn(int, int, int) -> u8 {
    |x: int, y: int, c: int| median_px(src, w, h, r, x, y, c)
}

/// The median filter gives each colour channel the middle value of its window: the
/// value at position `n / 2` of the `n = (2r+1)^2` sorted window values.
pub proof fn lemma_median_is_middle_value(src: Seq<u8>, w: int, h: int, r: int, x: int, y: int, c: int)
    requires
        0 <= r,
        side(r) * side(r) <= u64::MAX,
        0 <= c < 3,
    ensures
        is_kth_value(win_hist(src, w, h, x, y, r, c), side(r) * side(r) / 2, median_px(src, w, h, r, x, y, c) as int),
{
    let hc = win_hist(src, w, h, x, y, r, c);
    let n = side(r) * side(r);
    lemma_win_hist_total(src, w, h, x, y, r, c);
    assert(n >= 1) by (nonlinear_arith)
        requires
            n == side(r) * side(r),
            0 <= r,
    ;
    lemma_first_above_is_kth(hc, n / 2, 0);
}

/// Median filter computed window by window: every output pixel takes, per colour
/// channel, the median of the `(2r+1) x (2r+1)` neighbourhood (borders repeated) and
/// keeps its own alpha.
pub fn apply_median_naive(src: &[u8], width: usize, height: usize, radius: u32) -> (out: Vec<u8>)
    requires
        src@.len() == width * height * 4,
        side(radius as int) * side(radius as int) <= usize::MAX,
    ensures
        out@.len() == src@.len(),
        forall|x: int, y: int, c: int|
            0 <= x < width && 0 <= y < height && 0 <= c < 4 ==> #[trigger] out@[px_index(width as int, x, y, c)]
                == median_px(src@, width as int, height as int, radius as int, x, y, c),
{
    let ghost f = median_fn(src@, width as int, height as int, radius as int);
    let mut out: Vec<u8> = Vec::new();
    if width == 0 || height == 0 {
        assert(src@.len() == 0) by (nonlinear_arith)
            requires src@.len() == width * height * 4, width == 0 || height == 0;
        return out;
    }
    let len = src.len();
    proof {
        lemma_side_bound(width as int, height as int);
    }
    let n: usize = width * height;
    let d: u64 = (2 * radius as u64 + 1);
    let count: u64 = d * d;
    let mut p: usize = 0;
    while p < n
        invariant
            0 < width,
            0 < height,
            len == src@.len(),
            src@.len() == width * height * 4,
            n == width * height,
            side(radius as int) * side(radius as int) <= usize::MAX,
            count == side(radius as int) * side(radius as int),
            f == median_fn(src@, width as int, height as int, radius as int),
            p <= n,
            pixels_filled(out@, width as int, p as int, f),
        decreases n - p,
    {
        let x = p % width;
        let y = p / width;
        proof {
            lemma_px_of_linear(width as int, p as int, 3);
            crate::grid::lemma_linear_row_bound(width as int, height as int, p as int);
            crate::grid::lemma_px_index_bounds(width as int, height as int, x as int, y as int, 3);
        }
        let hist = window_histogram(src, width, height, x, y, radius);
        let mr = Histogram::median_from_hist(hist.red(), count);
        let mg = Histogram::median_from_hist(hist.green(), count);
        let mb = Histogram::median_from_hist(hist.blue(), count);
        let a = src[p * 4 + 3];
        proof {
            lemma_pixels_filled_push(out@, width as int, p as int, f);
        }
        out.push(mr);
        out.push(mg);
        out.push(mb);
        out.push(a);
        p = p + 1;
    }
    proof {
        lemma_pixels_filled_all(out@, width as int, height as int, f);
    }
    out
}


/// The bins of colour channel `c` (0 red, 1 green, 2 blue).
pub open spec fn channel_bins(hist: Histogram, c: int) -> Seq<u64> {
    if c == 0 {
        hist.spec_red()
    } else if c == 1 {
        hist.spec_green()
    } else {
        hist.spec_blue()
    }
}

/// Median filter computed with a sliding window: each row starts from a full window
/// histogram and then, moving right, drops the column that leaves the window and adds
/// the column that enters it. It yields exactly the output of `apply_median_naive`.
pub fn apply_median_sliding(src: &[u8], width: usize, height: usize, radius: u32) -> (out: Vec<u8>)
    requires
        src@.len() == width * height * 4,
        side(radius as int) * side(radius as int) <= usize::MAX,
        width > 0 || height == 0,
    ensures
        out@.len() == src@.len(),
        forall|x: int, y: int, c: int|
            0 <= x < width && 0 <= y < height && 0 <= c < 4 ==> #[trigger] out@[px_index(width as int, x, y, c)]
                == median_px(src@, width as int, height as int, radius as int, x, y, c),
{
    let ghost s = src@;
    let ghost (wi, hi, ri) = (width as int, height as int, radius as int);
    let ghost f = median_fn(s, wi, hi, ri);
    let mut out: Vec<u8> = Vec::new();
    if height == 0 {
        assert(src@.len() == 0) by (nonlinear_arith)
            requires src@.len() == width * height * 4, height == 0;
        return out;
    }
    let len = src.len();
    proof {
        lemma_side_bound(width as int, height as int);
        lemma_side_bound_u32(radius as int);
    }
    let d: u32 = 2 * radius + 1;
    let count: u64 = (d as u64) * (d as u64);
    let mut y: usize = 0;
    while y < height
        invariant
            0 < width,
            0 < height,
            len == src@.len(),
            s == src@,
            wi == width, hi == height, ri == radius,
            src@.len() == width * height * 4,
            d == side(ri),
            d * d <= usize::MAX,
            count == d * d,
            f == median_fn(s, wi, hi, ri),
            y <= height,
            pixels_filled(out@, wi, y * wi, f),
        decreases height - y,
    {
        proof {
            crate::grid::lemma_linear_of_px(wi, 0, y as int);
            crate::grid::lemma_px_index_bounds(wi, hi, 0, y as int, 3);
        }
        let mut hist = window_histogram(src, width, height, 0, y, radius);
        let p0: usize = y * width;
        let mr = Histogram::median_from_hist(hist.red(), count);
        let mg = Histogram::median_from_hist(hist.green(), count);
        let mb = Histogram::median_from_hist(hist.blue(), count);
        let a = src[p0 * 4 + 3];
        proof {
            lemma_pixels_filled_push(out@, wi, p0 as int, f);
        }
        out.push(mr);
        out.push(mg);
        out.push(mb);
        out.push(a);
        proof {
            assert forall|c: int, v: int| 0 <= c < 3 && 0 <= v < 256 implies
                #[trigger] channel_bins(hist, c)[v] == win_count(s, wi, hi, 0, y as int, ri, c, v, side(ri)) by {
                crate::window::lemma_win_count_le(s, wi, hi, 0, y as int, ri, c, v, side(ri));
            }
            assert(bin_total(channel_bins(hist, 0)) == d * d);
            assert(bin_total(channel_bins(hist, 1)) == d * d);
            assert(bin_total(channel_bins(hist, 2)) == d * d);
        }
        let mut x: usize = 1;
        while x < width
            invariant
                0 < width,
                0 < height,
                len == src@.len(),
                s == src@,
                wi == width, hi == height, ri == radius,
                src@.len() == width * height * 4,
                d == side(ri),
                d * d <= usize::MAX,
                count == d * d,
                f == median_fn(s, wi, hi, ri),
                y < height,
                1 <= x <= width,
                pixels_filled(out@, wi, y * wi + x, f),
                hist.spec_shape(),
                forall|c: int, v: int| 0 <= c < 3 && 0 <= v < 256 ==>
                    #[trigger] channel_bins(hist, c)[v] == win_count(s, wi, hi, x - 1, y as int, ri, c, v, side(ri)),
                forall|c: int| 0 <= c < 3 ==> #[trigger] bin_total(channel_bins(hist, c)) == d * d,
            decreases width - x,
        {
            let ghost xi = x as int;
            proof {
                assert forall|c: int, v: int| 0 <= c < 3 && 0 <= v < 256 implies
                    col_count(s, wi, hi, xi - 1, y as int, ri, c, v, 0, side(ri)) <= #[trigger] win_count(s, wi, hi, xi - 1, y as int, ri, c, v, side(ri)) by {
                    lemma_first_col_le_win(s, wi, hi, xi - 1, y as int, ri, c, v, side(ri));
                }
            }
            // Drop the column leaving the window.
            let mut j: u32 = 0;
            while j < d
                invariant
                    0 < width,
                    0 < height,
                    s == src@,
                    wi == width, hi == height, ri == radius,
                    src@.len() == width * height * 4,
                    d == side(ri),
                    d * d <= usize::MAX,
                    y < height,
                    1 <= x < width,
                    xi == x,
                    j <= d,
                    hist.spec_shape(),
                    forall|c: int, v: int| 0 <= c < 3 && 0 <= v < 256 ==>
                        col_count(s, wi, hi, xi - 1, y as int, ri, c, v, 0, side(ri)) <= #[trigger] win_count(s, wi, hi, xi - 1, y as int, ri, c, v, side(ri)),
                    forall|c: int, v: int| 0 <= c < 3 && 0 <= v < 256 ==>
                        #[trigger] channel_bins(hist, c)[v] == win_count(s, wi, hi, xi - 1, y as int, ri, c, v, side(ri))
                            - col_count(s, wi, hi, xi - 1, y as int, ri, c, v, 0, j as int),
                    forall|c: int| 0 <= c < 3 ==> #[trigger] bin_total(channel_bins(hist, c)) == d * d - j,
                decreases d - j,
            {
                let nr = window_byte(src, width, height, x - 1, y, radius, 0, j, 0) as usize;
                let ng = window_byte(src, width, height, x - 1, y, radius, 0, j, 1) as usize;
                let nb = window_byte(src, width, height, x - 1, y, radius, 0, j, 2) as usize;
                proof {
                    lemma_col_count_monotone(s, wi, hi, xi - 1, y as int, ri, 0, nr as int, 0, j + 1, side(ri));
                    lemma_col_count_monotone(s, wi, hi, xi - 1, y as int, ri, 1, ng as int, 0, j + 1, side(ri));
                    lemma_col_count_monotone(s, wi, hi, xi - 1, y as int, ri, 2, nb as int, 0, j + 1, side(ri));
                    assert(bin_total(channel_bins(hist, 0)) == d * d - j);
                    assert(bin_total(channel_bins(hist, 1)) == d * d - j);
                    assert(bin_total(channel_bins(hist, 2)) == d * d - j);
                    assert(channel_bins(hist, 0)[nr as int] >= 1);
                    assert(channel_bins(hist, 1)[ng as int] >= 1);
                    assert(channel_bins(hist, 2)[nb as int] >= 1);
                    lemma_prefix_sum_update(hist.spec_red(), nr as int, (hist.spec_red()[nr as int] - 1) as u64, 256);
                    lemma_prefix_sum_update(hist.spec_green(), ng as int, (hist.spec_green()[ng as int] - 1) as u64, 256);
                    lemma_prefix_sum_update(hist.spec_blue(), nb as int, (hist.spec_blue()[nb as int] - 1) as u64, 256);
                }
                let (hr, hg, hb) = hist.rgb_mut();
                hr[nr] = hr[nr].saturating_sub(1);
                hg[ng] = hg[ng].saturating_sub(1);
                hb[nb] = hb[nb].saturating_sub(1);
                proof {
                    assert(bin_total(channel_bins(hist, 0)) == d * d - j - 1);
                    assert(bin_total(channel_bins(hist, 1)) == d * d - j - 1);
                    assert(bin_total(channel_bins(hist, 2)) == d * d - j - 1);
                }
                j = j + 1;
            }
            // Add the column entering the window.
            let mut j: u32 = 0;
            while j < d
                invariant
                    0 < width,
                    0 < height,
                    s == src@,
                    wi == width, hi == height, ri == radius,
                    src@.len() == width * height * 4,
                    d == side(ri),
                    d * d <= usize::MAX,
                    y < height,
                    1 <= x < width,
                    xi == x,
                    j <= d,
                    hist.spec_shape(),
                    forall|c: int, v: int| 0 <= c < 3 && 0 <= v < 256 ==>
                        #[trigger] channel_bins(hist, c)[v] == win_count(s, wi, hi, xi - 1, y as int, ri, c, v, side(ri))
                            - col_count(s, wi, hi, xi - 1, y as int, ri, c, v, 0, side(ri))
                            + col_count(s, wi, hi, xi, y as int, ri, c, v, side(ri) - 1, j as int),
                    forall|c: int| 0 <= c < 3 ==> #[trigger] bin_total(channel_bins(hist, c)) == d * d - d + j,
                decreases d - j,
            {
                let nr = window_byte(src, width, height, x, y, radius, 2 * radius, j, 0) as usize;
                let ng = window_byte(src, width, height, x, y, radius, 2 * radius, j, 1) as usize;
                let nb = window_byte(src, width, height, x, y, radius, 2 * radius, j, 2) as usize;
                proof {
                    assert(bin_total(channel_bins(hist, 0)) < d * d);
                    assert(bin_total(channel_bins(hist, 1)) < d * d);
                    assert(bin_total(channel_bins(hist, 2)) < d * d);
                    lemma_bin_le_prefix(hist.spec_red(), nr as int, 256);
                    lemma_bin_le_prefix(hist.spec_green(), ng as int, 256);
                    lemma_bin_le_prefix(hist.spec_blue(), nb as int, 256);
                    lemma_prefix_sum_update(hist.spec_red(), nr as int, (hist.spec_red()[nr as int] + 1) as u64, 256);
                    lemma_prefix_sum_update(hist.spec_green(), ng as int, (hist.spec_green()[ng as int] + 1) as u64, 256);
                    lemma_prefix_sum_update(hist.spec_blue(), nb as int, (hist.spec_blue()[nb as int] + 1) as u64, 256);
                }
                let (hr, hg, hb) = hist.rgb_mut();
                hr[nr] = hr[nr] + 1;
                hg[ng] = hg[ng] + 1;
                hb[nb] = hb[nb] + 1;
                proof {
                    assert(bin_total(channel_bins(hist, 0)) == d * d - d + j + 1);
                    assert(bin_total(channel_bins(hist, 1)) == d * d - d + j + 1);
                    assert(bin_total(channel_bins(hist, 2)) == d * d - d + j + 1);
                }
                j = j + 1;
            }
            proof {
                assert forall|c: int, v: int| 0 <= c < 3 && 0 <= v < 256 implies
                    #[trigger] channel_bins(hist, c)[v] == win_count(s, wi, hi, xi, y as int, ri, c, v, side(ri)) by {
                    lemma_win_shift(s, wi, hi, xi, y as int, ri, c, v, side(ri));
                }
                assert(hist.spec_red() =~= win_hist(s, wi, hi, xi, y as int, ri, 0)) by {
                    assert forall|v: int| 0 <= v < 256 implies hist.spec_red()[v] == win_hist(s, wi, hi, xi, y as int, ri, 0)[v] by {
                        assert(channel_bins(hist, 0)[v] == win_count(s, wi, hi, xi, y as int, ri, 0, v, side(ri)));
                    }
                }
                assert(hist.spec_green() =~= win_hist(s, wi, hi, xi, y as int, ri, 1)) by {
                    assert forall|v: int| 0 <= v < 256 implies hist.spec_green()[v] == win_hist(s, wi, hi, xi, y as int, ri, 1)[v] by {
                        assert(channel_bins(hist, 1)[v] == win_count(s, wi, hi, xi, y as int, ri, 1, v, side(ri)));
                    }
                }
                assert(hist.spec_blue() =~= win_hist(s, wi, hi, xi, y as int, ri, 2)) by {
                    assert forall|v: int| 0 <= v < 256 implies hist.spec_blue()[v] == win_hist(s, wi, hi, xi, y as int, ri, 2)[v] by {
                        assert(channel_bins(hist, 2)[v] == win_count(s, wi, hi, xi, y as int, ri, 2, v, side(ri)));
                    }
                }
                assert(bin_total(channel_bins(hist, 0)) == d * d);
                assert(bin_total(channel_bins(hist, 1)) == d * d);
                assert(bin_total(channel_bins(hist, 2)) == d * d);
                crate::grid::lemma_linear_of_px(wi, xi, y as int);
                crate::grid::lemma_px_index_bounds(wi, hi, xi, y as int, 3);
            }
            let p: usize = y * width + x;
            let mr = Histogram::median_from_hist(hist.red(), count);
            let mg = Histogram::median_from_hist(hist.green(), count);
            let mb = Histogram::median_from_hist(hist.blue(), count);
            let a = src[p * 4 + 3];
            proof {
                lemma_pixels_filled_push(out@, wi, p as int, f);
            }
            out.push(mr);
            out.push(mg);
            out.push(mb);
            out.push(a);
            x = x + 1;
        }
        proof {
            assert(y * wi + wi == (y + 1) * wi) by (nonlinear_arith);
        }
        y = y + 1;
    }
    proof {
        assert(hi * wi == wi * hi) by (nonlinear_arith);
        crate::grid::lemma_pixels_filled_all(out@, wi, hi, f);
    }
    out
}

} // verus!

