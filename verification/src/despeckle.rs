//! Despeckle: replaces isolated noise pixels by the neighbourhood median.
use vstd::prelude::*;
use crate::grid::{px_index, pixels_filled, lemma_px_of_linear, lemma_pixels_filled_push, lemma_pixels_filled_all,
    lemma_side_bound, lemma_linear_row_bound, lemma_px_index_bounds};
use crate::histogram::{Histogram, hist_median, first_prefix_above, prefix_sum};
use crate::image::Image;
use crate::window::{side, win_hist, window_histogram, window_luma_range, luma, luma_of, win_min_luma, win_max_luma,
    max_int, win_luma, lemma_win_max_luma, lemma_win_min_luma};

verus! {

/// Absolute value.
pub open spec fn abs_int(a: int) -> int {
    if a < 0 {
        -a
    } else {
        a
    }
}

/// Output of the despeckle filter at pixel `(x, y)`, channel `c`.
///
/// With `m` the per-channel medians of the window of radius `r`: a pixel whose
/// luminance is the least or the greatest in its window takes `m`; otherwise it takes
/// `m` when some channel differs from its median by more than `threshold`, and keeps
/// its colour when none does. Alpha is always kept.
pub open spec fn despeckle_px(src: Seq<u8>, w: int, h: int, r: int, threshold: int, x: int, y: int, c: int) -> u8 {
    let p = px_index(w, x, y, 0);
    if c == 3 {
        src[p + 3]
    } else {
        let n = side(r) * side(r);
        let mr = hist_median(win_hist(src, w, h, x, y, r, 0), n);
        let mg = hist_median(win_hist(src, w, h, x, y, r, 1), n);
        let mb = hist_median(win_hist(src, w, h, x, y, r, 2), n);
        let mc = if c == 0 {
            mr
        } else if c == 1 {
            mg
        } else {
            mb
        };
        let center = luma(src[p] as int, src[p + 1] as int, src[p + 2] as int);
        if center == win_min_luma(src, w, h, x, y, r, side(r)) || center == win_max_luma(src, w, h, x, y, r, side(r)) {
            mc as u8
        } else {
            let diff = max_int(
                max_int(abs_int(src[p] - mr), abs_int(src[p + 1] - mg)),
                abs_int(src[p + 2] - mb),
            );
            if diff > threshold {
                mc as u8
            } else {
                src[p + c]
            }
        }
    }
}

/// Luminance of pixel `(x, y)` of a row-major RGBA buffer of width `w`.
pub open spec fn pixel_luma(src: Seq<u8>, w: int, x: int, y: int) -> int {
    luma(src[px_index(w, x, y, 0)] as int, src[px_index(w, x, y, 1)] as int, src[px_index(w, x, y, 2)] as int)
}

/// The median of channel `c` over the window of radius `r` around `(x, y)`.
pub open spec fn window_median(src: Seq<u8>, w: int, h: int, x: int, y: int, r: int, c: int) -> int {
    hist_median(win_hist(src, w, h, x, y, r, c), side(r) * side(r))
}

/// Channel `k` of pixel `(x, y)` differs from its window median by more than `threshold`.
pub open spec fn channel_far(src: Seq<u8>, w: int, h: int, r: int, threshold: int, x: int, y: int, k: int) -> bool {
    let d = src[px_index(w, x, y, k)] as int - window_median(src, w, h, x, y, r, k);
    d > threshold || -d > threshold
}

/// Some colour channel of pixel `(x, y)` differs from its window median by more than
/// `threshold`.
pub open spec fn far_from_median(src: Seq<u8>, w: int, h: int, r: int, threshold: int, x: int, y: int) -> bool {
    channel_far(src, w, h, r, threshold, x, y, 0) || channel_far(src, w, h, r, threshold, x, y, 1)
        || channel_far(src, w, h, r, threshold, x, y, 2)
}

/// `first_prefix_above` gives -1 or a bin.
proof fn lemma_first_above_range(hh: Seq<u64>, t: int, i: int)
    requires
        0 <= i,
    ensures
        -1 <= first_prefix_above(hh, t, i) < 256,
    decreases 256 - i,
{
    if i < 256 && prefix_sum(hh, i + 1) <= t {
        lemma_first_above_range(hh, t, i + 1);
    }
}

/// The window pixel at offsets `(r, r)` is the pixel itself.
proof fn lemma_center_in_window(src: Seq<u8>, w: int, h: int, r: int, x: int, y: int)
    requires
        0 <= x < w,
        0 <= y < h,
        0 <= r,
    ensures
        win_luma(src, w, h, x, y, r, r, r) == pixel_luma(src, w, x, y),
{
}

/// A pixel whose luminance is the greatest of its window, or the least, is an outlier:
/// each colour channel becomes the window median of that channel, whatever the threshold.
pub proof fn law_despeckle_extremes_take_median(
    src: Seq<u8>,
    w: int,
    h: int,
    r: int,
    threshold: int,
    x: int,
    y: int,
    c: int,
)
    requires
        src.len() == w * h * 4,
        0 <= x < w,
        0 <= y < h,
        0 <= r,
        0 <= c < 3,
        (forall|i: int, j: int| 0 <= i < side(r) && 0 <= j < side(r) ==> #[trigger] win_luma(src, w, h, x, y, r, i, j)
            <= pixel_luma(src, w, x, y)) || (forall|i: int, j: int| 0 <= i < side(r) && 0 <= j < side(r)
            ==> #[trigger] win_luma(src, w, h, x, y, r, i, j) >= pixel_luma(src, w, x, y)),
    ensures
        despeckle_px(src, w, h, r, threshold, x, y, c) as int == window_median(src, w, h, x, y, r, c),
{
    let l = pixel_luma(src, w, x, y);
    lemma_center_in_window(src, w, h, r, x, y);
    lemma_win_max_luma(src, w, h, x, y, r, side(r), l);
    lemma_win_min_luma(src, w, h, x, y, r, side(r), l);
    assert(win_luma(src, w, h, x, y, r, r, r) == l);
    let n = side(r) * side(r);
    lemma_first_above_range(win_hist(src, w, h, x, y, r, c), n / 2, 0);
}

/// A pixel whose luminance lies strictly between two luminances of its window keeps
/// its colour when every colour channel is within `threshold` of the window median of
/// that channel, and takes the medians when some channel is further away.
pub proof fn law_despeckle_inliers(
    src: Seq<u8>,
    w: int,
    h: int,
    r: int,
    threshold: int,
    x: int,
    y: int,
    c: int,
    i1: int,
    j1: int,
    i2: int,
    j2: int,
)
    requires
        src.len() == w * h * 4,
        0 <= x < w,
        0 <= y < h,
        0 <= r,
        0 <= c < 3,
        0 <= i1 < side(r),
        0 <= j1 < side(r),
        0 <= i2 < side(r),
        0 <= j2 < side(r),
        win_luma(src, w, h, x, y, r, i1, j1) < pixel_luma(src, w, x, y) < win_luma(src, w, h, x, y, r, i2, j2),
    ensures
        far_from_median(src, w, h, r, threshold, x, y) ==> despeckle_px(src, w, h, r, threshold, x, y, c) as int
            == window_median(src, w, h, x, y, r, c),
        !far_from_median(src, w, h, r, threshold, x, y) ==> despeckle_px(src, w, h, r, threshold, x, y, c)
            == src[px_index(w, x, y, c)],
{
    let l = pixel_luma(src, w, x, y);
    lemma_win_max_luma(src, w, h, x, y, r, side(r), l);
    lemma_win_min_luma(src, w, h, x, y, r, side(r), l);
    assert(win_luma(src, w, h, x, y, r, i1, j1) >= win_min_luma(src, w, h, x, y, r, side(r)));
    assert(win_luma(src, w, h, x, y, r, i2, j2) <= win_max_luma(src, w, h, x, y, r, side(r)));
    let n = side(r) * side(r);
    lemma_first_above_range(win_hist(src, w, h, x, y, r, 0), n / 2, 0);
    lemma_first_above_range(win_hist(src, w, h, x, y, r, 1), n / 2, 0);
    lemma_first_above_range(win_hist(src, w, h, x, y, r, 2), n / 2, 0);
}

/// Despeckling never changes alpha.
pub proof fn law_despeckle_keeps_alpha(src: Seq<u8>, w: int, h: int, r: int, threshold: int, x: int, y: int)
    ensures
        despeckle_px(src, w, h, r, threshold, x, y, 3) == src[px_index(w, x, y, 3)],
{
}

/// `despeckle_px` as a function of position and channel.
pub open spec fn despeckle_fn(src: Seq<u8>, w: int, h: int, r: int, threshold: int) -> spec_fn(int, int, int) -> u8 {
    |x: int, y: int, c: int| despeckle_px(src, w, h, r, threshold, x, y, c)
}

/// Applies the despeckle rule of `despeckle_px` to every pixel of an RGBA buffer.
pub fn despeckle_rgba(src: &[u8], width: usize, height: usize, radius: u32, threshold: i32) -> (out: Vec<u8>)
    requires
        src@.len() == width * height * 4,
        side(radius as int) * side(radius as int) <= usize::MAX,
    ensures
        out@.len() == src@.len(),
        forall|x: int, y: int, c: int|
            0 <= x < width && 0 <= y < height && 0 <= c < 4 ==> #[trigger] out@[px_index(width as int, x, y, c)]
                == despeckle_px(src@, width as int, height as int, radius as int, threshold as int, x, y, c),
{
    let ghost f = despeckle_fn(src@, width as int, height as int, radius as int, threshold as int);
    let mut out: Vec<u8> = Vec::new();
    if width == 0 || height == 0 {
        assert(src@.len() == 0) by (nonlinear_arith)
            requires src@.len() == width * height * 4, width == 0 || height == 0;
        return out;
    }
    let len = src.len();
    proof {
        lemma_side_bound(width as int, height as int);
    }
    let n: usize = width * height;
    let count: u64 = (2 * radius as u64 + 1) * (2 * radius as u64 + 1);
    let mut p: usize = 0;
    while p < n
        invariant
            0 < width,
            0 < height,
            len == src@.len(),
            src@.len() == width * height * 4,
            n == width * height,
            side(radius as int) * side(radius as int) <= usize::MAX,
            count == side(radius as int) * side(radius as int),
            f == despeckle_fn(src@, width as int, height as int, radius as int, threshold as int),
            p <= n,
            pixels_filled(out@, width as int, p as int, f),
        decreases n - p,
    {
        let x = p % width;
        let y = p / width;
        proof {
            lemma_px_of_linear(width as int, p as int, 0);
            lemma_px_of_linear(width as int, p as int, 3);
            lemma_linear_row_bound(width as int, height as int, p as int);
            lemma_px_index_bounds(width as int, height as int, x as int, y as int, 3);
        }
        let hist = window_histogram(src, width, height, x, y, radius);
        let (min_l, max_l) = window_luma_range(src, width, height, x, y, radius);
        let cr = src[p * 4];
        let cg = src[p * 4 + 1];
        let cb = src[p * 4 + 2];
        let ca = src[p * 4 + 3];
        let center = luma_of(cr, cg, cb);
        let mr = Histogram::median_from_hist(hist.red(), count);
        let mg = Histogram::median_from_hist(hist.green(), count);
        let mb = Histogram::median_from_hist(hist.blue(), count);
        let mut out_r = cr;
        let mut out_g = cg;
        let mut out_b = cb;
        if center == min_l || center == max_l {
            out_r = mr;
            out_g = mg;
            out_b = mb;
        } else {
            let d_r = abs_i32(cr as i32 - mr as i32);
            let d_g = abs_i32(cg as i32 - mg as i32);
            let d_b = abs_i32(cb as i32 - mb as i32);
            let dm = if d_r >= d_g { d_r } else { d_g };
            let diff = if dm >= d_b { dm } else { d_b };
            if diff > threshold {
                out_r = mr;
                out_g = mg;
                out_b = mb;
            }
        }
        proof {
            lemma_pixels_filled_push(out@, width as int, p as int, f);
        }
        out.push(out_r);
        out.push(out_g);
        out.push(out_b);
        out.push(ca);
        p = p + 1;
    }
    proof {
        lemma_pixels_filled_all(out@, width as int, height as int, f);
    }
    out
}

/// Absolute value of a small integer.
fn abs_i32(a: i32) -> (r: i32)
    requires
        a > i32::MIN,
    ensures
        r == abs_int(a as int),
{
    if a < 0 {
        -a
    } else {
        a
    }
}

/// Despeckles `image` in place with a window of radius `radius` and the given channel
/// `threshold`; an empty image is left as it is.
pub fn apply_despeckle(image: &mut Image, radius: u32, threshold: i32)
    requires
        side(radius as int) * side(radius as int) <= usize::MAX,
    ensures
        final(image).spec_width() == old(image).spec_width(),
        final(image).spec_height() == old(image).spec_height(),
        forall|x: int, y: int, c: int|
            0 <= x < old(image).spec_width() && 0 <= y < old(image).spec_height() && 0 <= c < 4
                ==> #[trigger] final(image).spec_rgba()[px_index(old(image).spec_width() as int, x, y, c)]
                == despeckle_px(
                old(image).spec_rgba(),
                old(image).spec_width() as int,
                old(image).spec_height() as int,
                radius as int,
                threshold as int,
                x,
                y,
                c,
            ),
{
    let (w, h) = image.shape();
    if w == 0 || h == 0 {
        return;
    }
    let out = despeckle_rgba(image.rgba(), w as usize, h as usize, radius, threshold);
    image.set_rgba_owned(out);
}

} // verus!
