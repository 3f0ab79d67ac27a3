//! Surface blur: an edge-preserving average over each pixel's neighbourhood.
use vstd::prelude::*;
use crate::grid::{px_index, pixels_filled, lemma_px_of_linear, lemma_pixels_filled_push, lemma_pixels_filled_all,
    lemma_side_bound, lemma_linear_row_bound, lemma_px_index_bounds};
use crate::histogram::{hist_weighted_average, lemma_weighted_prefix_bound};
use crate::image::Image;
use crate::window::{side, win_hist, window_histogram};

verus! {

/// Output of the surface blur at pixel `(x, y)`, channel `c`: the mean of the window
/// values of that channel lying within `threshold` of the pixel's own value (the pixel's
/// value when there are none); alpha is kept.
pub open spec fn surface_px(src: Seq<u8>, w: int, h: int, r: int, threshold: int, x: int, y: int, c: int) -> u8 {
    let p = px_index(w, x, y, 0);
    if c == 3 {
        src[p + 3]
    } else {
        hist_weighted_average(win_hist(src, w, h, x, y, r, c), src[p + c] as int, threshold) as u8
    }
}

/// `surface_px` as a function of position and channel.
pub open spec fn surface_fn(src: Seq<u8>, w: int, h: int, r: int, threshold: int) -> spec_fn(int, int, int) -> u8 {
    |x: int, y: int, c: int| surface_px(src, w, h, r, threshold, x, y, c)
}

/// Applies the surface blur rule of `surface_px` to every pixel of an RGBA buffer.
pub fn surface_blur_rgba(src: &[u8], width: usize, height: usize, radius: u32, threshold: u8) -> (out: Vec<u8>)
    requires
        src@.len() == width * height * 4,
        side(radius as int) * side(radius as int) <= usize::MAX,
        255 * side(radius as int) * side(radius as int) <= u64::MAX,
    ensures
        out@.len() == src@.len(),
        forall|x: int, y: int, c: int|
            0 <= x < width && 0 <= y < height && 0 <= c < 4 ==> #[trigger] out@[px_index(width as int, x, y, c)]
                == surface_px(src@, width as int, height as int, radius as int, threshold as int, x, y, c),
{
    let ghost f = surface_fn(src@, width as int, height as int, radius as int, threshold as int);
    let mut out: Vec<u8> = Vec::new();
    if width == 0 || height == 0 {
        assert(src@.len() == 0) by (nonlinear_arith)
            requires src@.len() == width * height * 4, width == 0 || height == 0;
        return out;
    }
    let len = src.len();
    proof {
        lemma_side_bound(width as int, height as int);
    }
    let n: usize = width * height;
    let mut p: usize = 0;
    while p < n
        invariant
            0 < width,
            0 < height,
            len == src@.len(),
            src@.len() == width * height * 4,
            n == width * height,
            side(radius as int) * side(radius as int) <= usize::MAX,
            255 * side(radius as int) * side(radius as int) <= u64::MAX,
            f == surface_fn(src@, width as int, height as int, radius as int, threshold as int),
            p <= n,
            pixels_filled(out@, width as int, p as int, f),
        decreases n - p,
    {
        let x = p % width;
        let y = p / width;
        proof {
            lemma_px_of_linear(width as int, p as int, 0);
            lemma_px_of_linear(width as int, p as int, 3);
            lemma_linear_row_bound(width as int, height as int, p as int);
            lemma_px_index_bounds(width as int, height as int, x as int, y as int, 3);
        }
        let hist = window_histogram(src, width, height, x, y, radius);
        proof {
            lemma_weighted_prefix_bound(hist.spec_red(), 256);
            lemma_weighted_prefix_bound(hist.spec_green(), 256);
            lemma_weighted_prefix_bound(hist.spec_blue(), 256);
            let dd = side(radius as int) * side(radius as int);
            assert(255 * dd == 255 * side(radius as int) * side(radius as int)) by (nonlinear_arith)
                requires dd == side(radius as int) * side(radius as int);
        }
        let cr = src[p * 4];
        let cg = src[p * 4 + 1];
        let cb = src[p * 4 + 2];
        let ca = src[p * 4 + 3];
        let out_r = hist.red_weighted_average(cr, threshold);
        let out_g = hist.green_weighted_average(cg, threshold);
        let out_b = hist.blue_weighted_average(cb, threshold);
        proof {
            lemma_pixels_filled_push(out@, width as int, p as int, f);
        }
        out.push(out_r);
        out.push(out_g);
        out.push(out_b);
        out.push(ca);
        p = p + 1;
    }
    proof {
        lemma_pixels_filled_all(out@, width as int, height as int, f);
    }
    out
}

/// Surface-blurs `image` in place, computing every window at full resolution; a
/// zero radius or an empty image leaves it unchanged.
pub fn apply_surface_blur_direct(image: &mut Image, radius: u32, threshold: u8)
    requires
        side(radius as int) * side(radius as int) <= usize::MAX,
        255 * side(radius as int) * side(radius as int) <= u64::MAX,
    ensures
        final(image).spec_width() == old(image).spec_width(),
        final(image).spec_height() == old(image).spec_height(),
        radius == 0 ==> final(image).spec_rgba() == old(image).spec_rgba(),
        radius > 0 ==> forall|x: int, y: int, c: int|
            0 <= x < old(image).spec_width() && 0 <= y < old(image).spec_height() && 0 <= c < 4
                ==> #[trigger] final(image).spec_rgba()[px_index(old(image).spec_width() as int, x, y, c)]
                == surface_px(
                old(image).spec_rgba(),
                old(image).spec_width() as int,
                old(image).spec_height() as int,
                radius as int,
                threshold as int,
                x,
                y,
                c,
            ),
{
    if radius == 0 {
        return;
    }
    let (w, h) = image.shape();
    if w == 0 || h == 0 {
        return;
    }
    let out = surface_blur_rgba(image.rgba(), w as usize, h as usize, radius, threshold);
    image.set_rgba_owned(out);
}

} // verus!
