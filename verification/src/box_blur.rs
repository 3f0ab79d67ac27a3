//! Box blur: a separable mean filter (a horizontal pass, then a vertical pass).
use vstd::prelude::*;
use crate::grid::{px_index, clamp_to, pixels_filled, lemma_px_of_linear, lemma_pixels_filled_push,
    lemma_pixels_filled_all, lemma_side_bound, lemma_linear_row_bound, lemma_px_index_bounds};
use crate::image::Image;
use crate::window::side;

verus! {

/// Sum of channel `c` over the first `k` pixels of the horizontal window of radius `r`
/// around `(x, y)` in `buf` (columns clamped to `0..w`).
pub open spec fn hsum(buf: Seq<u8>, w: int, x: int, y: int, r: int, c: int, k: int) -> int
    decreases k,
{
    if k <= 0 {
        0
    } else {
        hsum(buf, w, x, y, r, c, k - 1) + buf[px_index(w, clamp_to(x - r + k - 1, w), y, c)]
    }
}

/// Sum of channel `c` over the first `k` pixels of the vertical window of radius `r`
/// around `(x, y)` in `buf` (rows clamped to `0..h`).
pub open spec fn vsum(buf: Seq<u8>, w: int, h: int, x: int, y: int, r: int, c: int, k: int) -> int
    decreases k,
{
    if k <= 0 {
        0
    } else {
        vsum(buf, w, h, x, y, r, c, k - 1) + buf[px_index(w, x, clamp_to(y - r + k - 1, h), c)]
    }
}

/// Truncated mean of channel `c` over the horizontal window of radius `r` around `(x, y)`.
pub open spec fn row_mean(buf: Seq<u8>, w: int, x: int, y: int, r: int, c: int) -> int {
    hsum(buf, w, x, y, r, c, side(r)) / side(r)
}

/// Sum over the first `k` rows of the vertical window around `(x, y)` of the row means of `src`.
pub open spec fn vsum_of_row_means(src: Seq<u8>, w: int, h: int, x: int, y: int, r: int, c: int, k: int) -> int
    decreases k,
{
    if k <= 0 {
        0
    } else {
        vsum_of_row_means(src, w, h, x, y, r, c, k - 1) + row_mean(src, w, x, clamp_to(y - r + k - 1, h), r, c)
    }
}

/// Output of the box blur at pixel `(x, y)`, channel `c` (alpha included): the truncated
/// mean over the vertical window of the truncated horizontal means.
pub open spec fn box_px(src: Seq<u8>, w: int, h: int, r: int, x: int, y: int, c: int) -> u8 {
    (vsum_of_row_means(src, w, h, x, y, r, c, side(r)) / side(r)) as u8
}

/// The horizontal pass at pixel `(x, y)`, channel `c`.
pub open spec fn hpass_fn(src: Seq<u8>, w: int, r: int) -> spec_fn(int, int, int) -> u8 {
    |x: int, y: int, c: int| row_mean(src, w, x, y, r, c) as u8
}

/// The vertical pass over buffer `buf` at pixel `(x, y)`, channel `c`.
pub open spec fn vpass_fn(buf: Seq<u8>, w: int, h: int, r: int) -> spec_fn(int, int, int) -> u8 {
    |x: int, y: int, c: int| (vsum(buf, w, h, x, y, r, c, side(r)) / side(r)) as u8
}

/// A window sum of bytes is at most 255 per pixel.
pub proof fn lemma_hsum_bound(buf: Seq<u8>, w: int, x: int, y: int, r: int, c: int, k: int)
    requires
        k >= 0,
    ensures
        0 <= hsum(buf, w, x, y, r, c, k) <= 255 * k,
    decreases k,
{
    if k > 0 {
        lemma_hsum_bound(buf, w, x, y, r, c, k - 1);
    }
}

/// A window sum of bytes is at most 255 per pixel.
pub proof fn lemma_vsum_bound(buf: Seq<u8>, w: int, h: int, x: int, y: int, r: int, c: int, k: int)
    requires
        k >= 0,
    ensures
        0 <= vsum(buf, w, h, x, y, r, c, k) <= 255 * k,
    decreases k,
{
    if k > 0 {
        lemma_vsum_bound(buf, w, h, x, y, r, c, k - 1);
    }
}

/// A mean of bytes is a byte.
pub proof fn lemma_mean_bound(s: int, k: int)
    requires
        k > 0,
        0 <= s <= 255 * k,
    ensures
        0 <= s / k <= 255,
{
    assert(s / k <= 255) by (nonlinear_arith)
        requires k > 0, 0 <= s <= 255 * k;
    assert(0 <= s / k) by (nonlinear_arith)
        requires k > 0, 0 <= s;
}

/// The vertical sum over a buffer holding the row means is the sum of the row means.
pub proof fn lemma_vsum_of_hpass(buf: Seq<u8>, src: Seq<u8>, w: int, h: int, x: int, y: int, r: int, c: int, k: int)
    requires
        0 < w,
        0 < h,
        0 <= x < w,
        0 <= c < 4,
        r >= 0,
        k >= 0,
        forall|xx: int, yy: int, cc: int|
            0 <= xx < w && 0 <= yy < h && 0 <= cc < 4 ==> #[trigger] buf[px_index(w, xx, yy, cc)]
                == row_mean(src, w, xx, yy, r, cc) as u8,
        forall|xx: int, yy: int, cc: int|
            0 <= xx < w && 0 <= yy < h && 0 <= cc < 4 ==> 0 <= #[trigger] row_mean(src, w, xx, yy, r, cc) <= 255,
    ensures
        vsum(buf, w, h, x, y, r, c, k) == vsum_of_row_means(src, w, h, x, y, r, c, k),
    decreases k,
{
    if k > 0 {
        lemma_vsum_of_hpass(buf, src, w, h, x, y, r, c, k - 1);
        let yy = clamp_to(y - r + k - 1, h);
        assert(buf[px_index(w, x, yy, c)] == row_mean(src, w, x, yy, r, c) as u8);
        assert(0 <= row_mean(src, w, x, yy, r, c) <= 255);
    }
}

/// Horizontal mean pass over an RGBA buffer.
pub fn box_blur_horizontal(src: &[u8], width: usize, height: usize, radius: u32) -> (out: Vec<u8>)
    requires
        width > 0,
        src@.len() == width * height * 4,
        radius <= i32::MAX,
    ensures
        out@.len() == src@.len(),
        forall|x: int, y: int, c: int|
            0 <= x < width && 0 <= y < height && 0 <= c < 4 ==> #[trigger] out@[px_index(width as int, x, y, c)]
                == row_mean(src@, width as int, x, y, radius as int, c) as u8,
        forall|x: int, y: int, c: int|
            0 <= x < width && 0 <= y < height && 0 <= c < 4 ==> 0 <= #[trigger] row_mean(src@, width as int, x, y, radius as int, c) <= 255,
{
    let ghost s = src@;
    let ghost (wi, hi, ri) = (width as int, height as int, radius as int);
    let ghost f = hpass_fn(s, wi, ri);
    let mut out: Vec<u8> = Vec::new();
    let len = src.len();
    let n: usize = if height == 0 { 0 } else { proof { lemma_side_bound(wi, hi); } width * height };
    let d: u64 = 2 * radius as u64 + 1;
    let mut p: usize = 0;
    while p < n
        invariant
            0 < width,
            len == src@.len(),
            s == src@,
            wi == width, hi == height, ri == radius,
            src@.len() == width * height * 4,
            n == width * height,
            radius <= i32::MAX,
            d == side(ri),
            f == hpass_fn(s, wi, ri),
            p <= n,
            pixels_filled(out@, wi, p as int, f),
        decreases n - p,
    {
        let x = p % width;
        let y = p / width;
        proof {
            lemma_px_of_linear(wi, p as int, 0);
            lemma_linear_row_bound(wi, hi, p as int);
            lemma_side_bound(wi, hi);
        }
        let mut sums: [u64; 4] = [0u64; 4];
        let mut i: u64 = 0;
        while i < d
            invariant
                0 < width,
                x < width,
                y < height,
                s == src@,
                len == src@.len(),
                width * 4 <= src@.len(),
                height * 4 <= src@.len(),
                wi == width, hi == height, ri == radius,
                src@.len() == width * height * 4,
                radius <= i32::MAX,
                d == side(ri),
                i <= d,
                sums@.len() == 4,
                forall|c: int| 0 <= c < 4 ==> #[trigger] sums@[c] == hsum(s, wi, x as int, y as int, ri, c, i as int),
            decreases d - i,
        {
            let xx: i64 = x as i64 - radius as i64 + i as i64;
            let nx: usize = if xx < 0 { 0 } else if xx >= width as i64 { width - 1 } else { xx as usize };
            proof {
                lemma_px_index_bounds(wi, hi, nx as int, y as int, 3);
                assert forall|c: int| 0 <= c < 4 implies #[trigger] sums@[c] + s[px_index(wi, nx as int, y as int, c)] <= 255 * (i + 1) by {
                    lemma_hsum_bound(s, wi, x as int, y as int, ri, c, i as int);
                }
            }
            let base: usize = (y * width + nx) * 4;
            sums[0] = sums[0] + src[base] as u64;
            sums[1] = sums[1] + src[base + 1] as u64;
            sums[2] = sums[2] + src[base + 2] as u64;
            sums[3] = sums[3] + src[base + 3] as u64;
            i = i + 1;
        }
        proof {
            assert forall|c: int| 0 <= c < 4 implies 0 <= #[trigger] row_mean(s, wi, x as int, y as int, ri, c) <= 255 by {
                lemma_hsum_bound(s, wi, x as int, y as int, ri, c, side(ri));
                lemma_mean_bound(hsum(s, wi, x as int, y as int, ri, c, side(ri)), side(ri));
            }
            lemma_pixels_filled_push(out@, wi, p as int, f);
        }
        out.push((sums[0] / d) as u8);
        out.push((sums[1] / d) as u8);
        out.push((sums[2] / d) as u8);
        out.push((sums[3] / d) as u8);
        p = p + 1;
    }
    proof {
        if hi > 0 {
            lemma_pixels_filled_all(out@, wi, hi, f);
        } else {
            assert(src@.len() == 0) by (nonlinear_arith)
                requires src@.len() == width * height * 4, hi == 0, hi == height;
        }
        assert forall|x: int, y: int, c: int|
            0 <= x < width && 0 <= y < height && 0 <= c < 4 implies 0 <= #[trigger] row_mean(s, wi, x, y, ri, c) <= 255 by {
            lemma_hsum_bound(s, wi, x, y, ri, c, side(ri));
            lemma_mean_bound(hsum(s, wi, x, y, ri, c, side(ri)), side(ri));
        }
    }
    out
}

/// Vertical mean pass over an RGBA buffer.
pub fn box_blur_vertical(buf: &[u8], width: usize, height: usize, radius: u32) -> (out: Vec<u8>)
    requires
        width > 0,
        buf@.len() == width * height * 4,
        radius <= i32::MAX,
    ensures
        out@.len() == buf@.len(),
        forall|x: int, y: int, c: int|
            0 <= x < width && 0 <= y < height && 0 <= c < 4 ==> #[trigger] out@[px_index(width as int, x, y, c)]
                == (vpass_fn(buf@, width as int, height as int, radius as int))(x, y, c),
{
    let ghost s = buf@;
    let ghost (wi, hi, ri) = (width as int, height as int, radius as int);
    let ghost f = vpass_fn(s, wi, hi, ri);
    let mut out: Vec<u8> = Vec::new();
    let len = buf.len();
    let n: usize = if height == 0 { 0 } else { proof { lemma_side_bound(wi, hi); } width * height };
    let d: u64 = 2 * radius as u64 + 1;
    let mut p: usize = 0;
    while p < n
        invariant
            0 < width,
            len == buf@.len(),
            s == buf@,
            wi == width, hi == height, ri == radius,
            buf@.len() == width * height * 4,
            n == width * height,
            radius <= i32::MAX,
            d == side(ri),
            f == vpass_fn(s, wi, hi, ri),
            p <= n,
            pixels_filled(out@, wi, p as int, f),
        decreases n - p,
    {
        let x = p % width;
        let y = p / width;
        proof {
            lemma_px_of_linear(wi, p as int, 0);
            lemma_linear_row_bound(wi, hi, p as int);
            lemma_side_bound(wi, hi);
        }
        let mut sums: [u64; 4] = [0u64; 4];
        let mut j: u64 = 0;
        while j < d
            invariant
                0 < width,
                x < width,
                y < height,
                s == buf@,
                len == buf@.len(),
                width * 4 <= buf@.len(),
                height * 4 <= buf@.len(),
                wi == width, hi == height, ri == radius,
                buf@.len() == width * height * 4,
                radius <= i32::MAX,
                d == side(ri),
                j <= d,
                sums@.len() == 4,
                forall|c: int| 0 <= c < 4 ==> #[trigger] sums@[c] == vsum(s, wi, hi, x as int, y as int, ri, c, j as int),
            decreases d - j,
        {
            let yy: i64 = y as i64 - radius as i64 + j as i64;
            let ny: usize = if yy < 0 { 0 } else if yy >= height as i64 { height - 1 } else { yy as usize };
            proof {
                lemma_px_index_bounds(wi, hi, x as int, ny as int, 3);
                assert forall|c: int| 0 <= c < 4 implies #[trigger] sums@[c] + s[px_index(wi, x as int, ny as int, c)] <= 255 * (j + 1) by {
                    lemma_vsum_bound(s, wi, hi, x as int, y as int, ri, c, j as int);
                }
            }
            let base: usize = (ny * width + x) * 4;
            sums[0] = sums[0] + buf[base] as u64;
            sums[1] = sums[1] + buf[base + 1] as u64;
            sums[2] = sums[2] + buf[base + 2] as u64;
            sums[3] = sums[3] + buf[base + 3] as u64;
            j = j + 1;
        }
        proof {
            lemma_pixels_filled_push(out@, wi, p as int, f);
        }
        out.push((sums[0] / d) as u8);
        out.push((sums[1] / d) as u8);
        out.push((sums[2] / d) as u8);
        out.push((sums[3] / d) as u8);
        p = p + 1;
    }
    proof {
        if hi > 0 {
            lemma_pixels_filled_all(out@, wi, hi, f);
        } else {
            assert(buf@.len() == 0) by (nonlinear_arith)
                requires buf@.len() == width * height * 4, hi == 0, hi == height;
        }
    }
    out
}

/// Box blur of an RGBA buffer: each channel (alpha included) becomes the truncated mean
/// over a horizontal window of `2 * radius + 1` pixels, then over a vertical one, with
/// border pixels repeated.
pub fn box_blur_rgba(src: &[u8], width: usize, height: usize, radius: u32) -> (out: Vec<u8>)
    requires
        width > 0,
        src@.len() == width * height * 4,
        radius <= i32::MAX,
    ensures
        out@.len() == src@.len(),
        forall|x: int, y: int, c: int|
            0 <= x < width && 0 <= y < height && 0 <= c < 4 ==> #[trigger] out@[px_index(width as int, x, y, c)]
                == box_px(src@, width as int, height as int, radius as int, x, y, c),
{
    let tmp = box_blur_horizontal(src, width, height, radius);
    let out = box_blur_vertical(tmp.as_slice(), width, height, radius);
    proof {
        assert forall|x: int, y: int, c: int|
            0 <= x < width && 0 <= y < height && 0 <= c < 4 implies #[trigger] out@[px_index(width as int, x, y, c)]
                == box_px(src@, width as int, height as int, radius as int, x, y, c) by {
            lemma_vsum_of_hpass(tmp@, src@, width as int, height as int, x, y, radius as int, c, side(radius as int));
        }
    }
    out
}

/// Box-blurs `image` in place with the given radius; a zero radius leaves it unchanged.
pub fn apply_box_blur(image: &mut Image, radius: u32)
    requires
        radius <= i32::MAX,
        radius > 0 ==> old(image).spec_width() > 0,
    ensures
        final(image).spec_width() == old(image).spec_width(),
        final(image).spec_height() == old(image).spec_height(),
        radius == 0 ==> final(image).spec_rgba() == old(image).spec_rgba(),
        radius > 0 ==> forall|x: int, y: int, c: int|
            0 <= x < old(image).spec_width() && 0 <= y < old(image).spec_height() && 0 <= c < 4
                ==> #[trigger] final(image).spec_rgba()[px_index(old(image).spec_width() as int, x, y, c)]
                == box_px(
                old(image).spec_rgba(),
                old(image).spec_width() as int,
                old(image).spec_height() as int,
                radius as int,
                x,
                y,
                c,
            ),
{
    if radius == 0 {
        return;
    }
    let (w, h) = image.shape();
    let out = box_blur_rgba(image.rgba(), w as usize, h as usize, radius);
    image.set_rgba_owned(out);
}

} // verus!
