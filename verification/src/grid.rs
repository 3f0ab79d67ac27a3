//! Row-major RGBA buffer indexing facts shared by the pixel modules.
use vstd::prelude::*;

verus! {

/// Index of channel `c` of pixel `(x, y)` in a row-major RGBA buffer of width `w`.
pub open spec fn px_index(w: int, x: int, y: int, c: int) -> int {
    (y * w + x) * 4 + c
}

/// Clamps `v` into `0..n` (for `n >= 1`), the way border pixels are repeated.
pub open spec fn clamp_to(v: int, n: int) -> int {
    if v < 0 {
        0
    } else if v >= n {
        n - 1
    } else {
        v
    }
}

/// Every channel index of an in-bounds pixel lies inside the buffer.
pub proof fn lemma_px_index_bounds(w: int, h: int, x: int, y: int, c: int)
    requires
        0 <= x < w,
        0 <= y < h,
        0 <= c < 4,
    ensures
        0 <= y * w,
        y * w + x < w * h,
        0 <= px_index(w, x, y, c) < w * h * 4,
        px_index(w, x, y, c) == px_index(w, x, y, 0) + c,
{
    assert(0 <= y * w) by (nonlinear_arith)
        requires
            0 <= y,
            0 <= w,
    ;
    assert(y * w + x < h * w) by (nonlinear_arith)
        requires
            0 <= x < w,
            0 <= y < h,
    ;
    assert(h * w == w * h) by (nonlinear_arith);
}

/// The first `n` pixels (in row-major order) of the RGBA buffer `out` hold `f(x, y, c)`.
pub open spec fn pixels_filled(out: Seq<u8>, w: int, n: int, f: spec_fn(int, int, int) -> u8) -> bool {
    &&& out.len() == n * 4
    &&& forall|x: int, y: int, c: int|
        0 <= x < w && 0 <= y && y * w + x < n && 0 <= c < 4 ==> #[trigger] out[px_index(w, x, y, c)] == f(
            x,
            y,
            c,
        )
}

/// Pixel `p` of a row-major buffer of width `w` sits at column `p % w` of row `p / w`.
pub proof fn lemma_px_of_linear(w: int, p: int, c: int)
    requires
        0 < w,
        0 <= p,
    ensures
        0 <= p % w < w,
        0 <= p / w,
        (p / w) * w + p % w == p,
        px_index(w, p % w, p / w, c) == p * 4 + c,
{
    vstd::arithmetic::div_mod::lemma_fundamental_div_mod(p, w);
    assert((p / w) * w == w * (p / w)) by (nonlinear_arith);
    vstd::arithmetic::div_mod::lemma_div_pos_is_pos(p, w);
    vstd::arithmetic::div_mod::lemma_mod_pos_bound(p, w);
}

/// Column `x` of row `y` is pixel `y * w + x` in row-major order.
pub proof fn lemma_linear_of_px(w: int, x: int, y: int)
    requires
        0 <= x < w,
        0 <= y,
    ensures
        (y * w + x) % w == x,
        (y * w + x) / w == y,
        0 <= y * w + x,
{
    assert(0 <= y * w) by (nonlinear_arith)
        requires 0 <= y, 0 < w;
    assert(y * w == w * y) by (nonlinear_arith);
    vstd::arithmetic::div_mod::lemma_fundamental_div_mod_converse(y * w + x, w, y, x);
}

/// A pixel index below `w * h` lies in one of the `h` rows.
pub proof fn lemma_linear_row_bound(w: int, h: int, p: int)
    requires
        0 < w,
        0 <= p < w * h,
    ensures
        p / w < h,
{
    lemma_px_of_linear(w, p, 0);
    let q = p / w;
    assert(q < h) by (nonlinear_arith)
        requires q * w <= p, p < w * h, 0 < w;
}

/// Appending the four channels of pixel `n` extends a filled prefix by one pixel.
pub proof fn lemma_pixels_filled_push(out: Seq<u8>, w: int, n: int, f: spec_fn(int, int, int) -> u8)
    requires
        0 < w,
        0 <= n,
        pixels_filled(out, w, n, f),
    ensures
        pixels_filled(
            out.push(f(n % w, n / w, 0)).push(f(n % w, n / w, 1)).push(f(n % w, n / w, 2)).push(
                f(n % w, n / w, 3),
            ),
            w,
            n + 1,
            f,
        ),
{
    let out2 = out.push(f(n % w, n / w, 0)).push(f(n % w, n / w, 1)).push(f(n % w, n / w, 2)).push(
        f(n % w, n / w, 3),
    );
    lemma_px_of_linear(w, n, 0);
    assert forall|x: int, y: int, c: int|
        0 <= x < w && 0 <= y && y * w + x < n + 1 && 0 <= c < 4 implies #[trigger] out2[px_index(
        w,
        x,
        y,
        c,
    )] == f(x, y, c) by {
        if y * w + x < n {
            assert(px_index(w, x, y, c) < n * 4) by (nonlinear_arith)
                requires y * w + x < n, 0 <= c < 4;
            assert(out2[px_index(w, x, y, c)] == out[px_index(w, x, y, c)]);
        } else {
            vstd::arithmetic::div_mod::lemma_fundamental_div_mod_converse(n, w, y, x);
            assert(y * w == w * y) by (nonlinear_arith);
            lemma_px_of_linear(w, n, c);
        }
    }
}

/// A buffer filled for all `w * h` pixels covers every pixel of the image.
pub proof fn lemma_pixels_filled_all(out: Seq<u8>, w: int, h: int, f: spec_fn(int, int, int) -> u8)
    requires
        0 < w,
        pixels_filled(out, w, w * h, f),
    ensures
        forall|x: int, y: int, c: int|
            0 <= x < w && 0 <= y < h && 0 <= c < 4 ==> #[trigger] out[px_index(w, x, y, c)] == f(x, y, c),
{
    assert forall|x: int, y: int, c: int| 0 <= x < w && 0 <= y < h && 0 <= c < 4 implies #[trigger] out[px_index(
        w,
        x,
        y,
        c,
    )] == f(x, y, c) by {
        lemma_px_index_bounds(w, h, x, y, c);
    }
}

/// Each side of a non-empty buffer is at most a quarter of its byte length.
pub proof fn lemma_side_bound(w: int, h: int)
    requires
        0 < w,
        0 < h,
    ensures
        w * 4 <= w * h * 4,
        h * 4 <= w * h * 4,
{
    assert(w <= w * h) by (nonlinear_arith)
        requires 0 < w, 0 < h;
    assert(h <= w * h) by (nonlinear_arith)
        requires 0 < w, 0 < h;
}

} // verus!
