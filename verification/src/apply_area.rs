//! Preparing the sub-rectangle of an image that a filter processes: the area clipped
//! to the image, widened by the filter's kernel padding, and its pixels cut out.
use vstd::prelude::*;
use crate::image::Image;
use crate::grid::{px_index, pixels_filled, lemma_px_of_linear, lemma_pixels_filled_push, lemma_pixels_filled_all,
    lemma_px_index_bounds};

verus! {

/// The pixels of a prepared area: the whole image's bytes, borrowed, or a copy of a
/// sub-rectangle.
pub enum AreaPixels<'a> {
    /// The bytes of the whole image.
    Borrowed(&'a [u8]),
    /// The bytes of a sub-rectangle, row by row.
    Owned(Vec<u8>),
}

impl<'a> AreaPixels<'a> {
    /// The bytes held, whichever way.
    pub open spec fn bytes(&self) -> Seq<u8> {
        match self {
            AreaPixels::Borrowed(s) => s@,
            AreaPixels::Owned(v) => v@,
        }
    }

    /// The bytes held, whichever way.
    pub fn as_slice(&self) -> (s: &[u8])
        ensures
            s@ == self.bytes(),
    {
        match self {
            AreaPixels::Borrowed(s) => s,
            AreaPixels::Owned(v) => v.as_slice(),
        }
    }
}

/// The prepared area: its pixels, the image size, the target area and the processing
/// rectangle (the area widened by the kernel padding), in image coordinates.
pub struct PreparedArea<'a> {
    /// The bytes of the processing rectangle, `rect_w * rect_h * 4` of them.
    pub pixels: AreaPixels<'a>,
    pub image_width: usize,
    pub image_height: usize,
    pub area_min_x: i32,
    pub area_min_y: i32,
    pub area_w: i32,
    pub area_h: i32,
    pub rect_min_x: i32,
    pub rect_min_y: i32,
    pub rect_w: i32,
    pub rect_h: i32,
}

/// The geometry of a prepared area, without its pixels.
#[derive(Clone, Copy, Debug)]
pub struct PreparedAreaMeta {
    pub image_width: usize,
    pub image_height: usize,
    pub area_min_x: i32,
    pub area_min_y: i32,
    pub area_w: i32,
    pub area_h: i32,
    pub rect_min_x: i32,
    pub rect_min_y: i32,
    pub rect_w: i32,
    pub rect_h: i32,
}

impl<'a> PreparedArea<'a> {
    /// The geometry of the prepared area.
    pub fn meta(&self) -> (m: PreparedAreaMeta)
        ensures
            m.image_width == self.image_width,
            m.image_height == self.image_height,
            m.area_min_x == self.area_min_x,
            m.area_min_y == self.area_min_y,
            m.area_w == self.area_w,
            m.area_h == self.area_h,
            m.rect_min_x == self.rect_min_x,
            m.rect_min_y == self.rect_min_y,
            m.rect_w == self.rect_w,
            m.rect_h == self.rect_h,
    {
        PreparedAreaMeta {
            image_width: self.image_width,
            image_height: self.image_height,
            area_min_x: self.area_min_x,
            area_min_y: self.area_min_y,
            area_w: self.area_w,
            area_h: self.area_h,
            rect_min_x: self.rect_min_x,
            rect_min_y: self.rect_min_y,
            rect_w: self.rect_w,
            rect_h: self.rect_h,
        }
    }
}

/// The geometry that `prepare_area_pixels` gives the bounds `b = (min_x, min_y, max_x,
/// max_y)` in a `w x h` image with kernel padding `pad`, as `(area_min_x, area_min_y,
/// area_w, area_h, rect_min_x, rect_min_y, rect_w, rect_h)`: the bounds are clipped to
/// the image; an empty clip gives an empty area and rectangle at its corner; otherwise
/// the rectangle is the area widened by `pad` on each side, clipped to the image.
pub open spec fn area_geometry(w: int, h: int, b: (i32, i32, i32, i32), pad: int) -> (int, int, int, int, int, int, int, int) {
    let min_x: int = if b.0 < 0 {
        0
    } else {
        b.0 as int
    };
    let min_y: int = if b.1 < 0 {
        0
    } else {
        b.1 as int
    };
    let max_x: int = if b.2 > w {
        w
    } else {
        b.2 as int
    };
    let max_y: int = if b.3 > h {
        h
    } else {
        b.3 as int
    };
    if min_x >= max_x || min_y >= max_y {
        (min_x, min_y, 0, 0, min_x, min_y, 0, 0)
    } else {
        let rx: int = if min_x - pad < 0 {
            0
        } else {
            min_x - pad
        };
        let ry: int = if min_y - pad < 0 {
            0
        } else {
            min_y - pad
        };
        let rmx: int = if max_x + pad > w {
            w
        } else {
            max_x + pad
        };
        let rmy: int = if max_y + pad > h {
            h
        } else {
            max_y + pad
        };
        (min_x, min_y, max_x - min_x, max_y - min_y, rx, ry, rmx - rx, rmy - ry)
    }
}

/// The prepared area matches the geometry `g` in an image of `w x h` pixels.
pub open spec fn fields_match(p: &PreparedArea, w: int, h: int, g: (int, int, int, int, int, int, int, int)) -> bool {
    &&& p.image_width == w
    &&& p.image_height == h
    &&& p.area_min_x == g.0
    &&& p.area_min_y == g.1
    &&& p.area_w == g.2
    &&& p.area_h == g.3
    &&& p.rect_min_x == g.4
    &&& p.rect_min_y == g.5
    &&& p.rect_w == g.6
    &&& p.rect_h == g.7
}

/// With a non-negative padding, the processing rectangle lies inside the image and
/// contains the (clipped) target area.
pub proof fn lemma_rect_contains_area(w: int, h: int, b: (i32, i32, i32, i32), pad: int)
    requires
        0 <= w,
        0 <= h,
        0 <= pad,
    ensures
        ({
            let g = area_geometry(w, h, b, pad);
            &&& 0 <= g.2 && 0 <= g.3 && 0 <= g.6 && 0 <= g.7
            &&& g.2 > 0 ==> 0 <= g.4 <= g.0 && g.0 + g.2 <= g.4 + g.6 <= w
            &&& g.3 > 0 ==> 0 <= g.5 <= g.1 && g.1 + g.3 <= g.5 + g.7 <= h
        }),
{
}

/// Copies the `rw x rh` rectangle at `(rx, ry)` out of the RGBA bytes of a `w`-wide image.
fn copy_rect(rgba: &[u8], w: usize, h: usize, rx: usize, ry: usize, rw: usize, rh: usize) -> (out: Vec<u8>)
    requires
        rgba@.len() == w * h * 4,
        rx + rw <= w,
        ry + rh <= h,
    ensures
        out@.len() == rw * rh * 4,
        forall|x: int, y: int, c: int|
            0 <= x < rw && 0 <= y < rh && 0 <= c < 4 ==> #[trigger] out@[px_index(rw as int, x, y, c)] == rgba@[px_index(
                w as int,
                rx + x,
                ry + y,
                c,
            )],
{
    let ghost f = |x: int, y: int, c: int| rgba@[px_index(w as int, rx + x, ry + y, c)];
    let total: usize = rgba.len();
    let mut out: Vec<u8> = Vec::new();
    if rw == 0 || rh == 0 {
        assert(rw * rh * 4 == 0) by (nonlinear_arith)
            requires
                rw == 0 || rh == 0,
        ;
        return out;
    }
    proof {
        assert(rw * rh <= w * h) by (nonlinear_arith)
            requires
                rx + rw <= w,
                ry + rh <= h,
        ;
        assert(w * h <= w * h * 4) by (nonlinear_arith);
    }
    let n: usize = rw * rh;
    let mut p: usize = 0;
    while p < n
        invariant
            0 < rw,
            0 < rh,
            rgba@.len() == w * h * 4,
            total == rgba@.len(),
            rx + rw <= w,
            ry + rh <= h,
            n == rw * rh,
            p <= n,
            f == (|x: int, y: int, c: int| rgba@[px_index(w as int, rx + x, ry + y, c)]),
            pixels_filled(out@, rw as int, p as int, f),
        decreases n - p,
    {
        let x: usize = p % rw;
        let y: usize = p / rw;
        proof {
            lemma_px_of_linear(rw as int, p as int, 3);
            crate::grid::lemma_linear_row_bound(rw as int, rh as int, p as int);
            lemma_px_index_bounds(w as int, h as int, rx + x, ry + y, 3);
        }
        let i: usize = ((ry + y) * w + (rx + x)) * 4;
        proof {
            lemma_pixels_filled_push(out@, rw as int, p as int, f);
        }
        out.push(rgba[i]);
        out.push(rgba[i + 1]);
        out.push(rgba[i + 2]);
        out.push(rgba[i + 3]);
        p = p + 1;
    }
    proof {
        lemma_pixels_filled_all(out@, rw as int, rh as int, f);
    }
    out
}

/// The `w x h` sub-image of `image` whose top-left corner is `(x, y)`.
pub fn crop_image(image: &Image, x: u32, y: u32, w: u32, h: u32) -> (c: Image)
    requires
        x + w <= image.spec_width(),
        y + h <= image.spec_height(),
    ensures
        c.spec_width() == w,
        c.spec_height() == h,
        forall|i: int, j: int, k: int|
            0 <= i < w && 0 <= j < h && 0 <= k < 4 ==> #[trigger] c.spec_rgba()[px_index(w as int, i, j, k)]
                == image.spec_rgba()[px_index(image.spec_width() as int, x + i, y + j, k)],
{
    let (iw, ih) = image.shape();
    let pixels: Vec<u8> = copy_rect(image.rgba(), iw as usize, ih as usize, x as usize, y as usize, w as usize, h as usize);
    Image::new_from_rgba(w, h, pixels)
}

/// Prepares the part of `image` that a filter with `kernel_padding` pixels of padding
/// processes. Without bounds the whole image is taken and its bytes borrowed. With
/// bounds `(min_x, min_y, max_x, max_y)` the geometry is `area_geometry` and the bytes of
/// the processing rectangle are copied out row by row.
pub fn prepare_area_pixels<'a>(image: &'a Image, bounds: Option<(i32, i32, i32, i32)>, kernel_padding: i32) -> (p:
    PreparedArea<'a>)
    requires
        image.spec_width() <= i32::MAX,
        image.spec_height() <= i32::MAX,
        bounds matches Some(b) ==> ({
            let g = area_geometry(image.spec_width() as int, image.spec_height() as int, b, kernel_padding as int);
            g.6 >= 0 && g.7 >= 0
        }),
    ensures
        bounds is None ==> {
            &&& p.pixels is Borrowed
            &&& p.pixels.bytes() == image.spec_rgba()
            &&& fields_match(
                &p,
                image.spec_width() as int,
                image.spec_height() as int,
                (
                    0,
                    0,
                    image.spec_width() as int,
                    image.spec_height() as int,
                    0,
                    0,
                    image.spec_width() as int,
                    image.spec_height() as int,
                ),
            )
        },
        bounds matches Some(b) ==> {
            let w = image.spec_width() as int;
            let g = area_geometry(w, image.spec_height() as int, b, kernel_padding as int);
            &&& p.pixels is Owned
            &&& fields_match(&p, w, image.spec_height() as int, g)
            &&& p.pixels.bytes().len() == g.6 * g.7 * 4
            &&& forall|x: int, y: int, c: int|
                0 <= x < g.6 && 0 <= y < g.7 && 0 <= c < 4 ==> #[trigger] p.pixels.bytes()[px_index(g.6, x, y, c)]
                    == image.spec_rgba()[px_index(w, g.4 + x, g.5 + y, c)]
        },
{
    let (w, h) = image.shape();
    let iw: i64 = w as i64;
    let ih: i64 = h as i64;
    let rgba: &[u8] = image.rgba();
    match bounds {
        None => PreparedArea {
            pixels: AreaPixels::Borrowed(rgba),
            image_width: w as usize,
            image_height: h as usize,
            area_min_x: 0,
            area_min_y: 0,
            area_w: w as i32,
            area_h: h as i32,
            rect_min_x: 0,
            rect_min_y: 0,
            rect_w: w as i32,
            rect_h: h as i32,
        },
        Some(b) => {
            let min_x: i64 = if b.0 < 0 {
                0
            } else {
                b.0 as i64
            };
            let min_y: i64 = if b.1 < 0 {
                0
            } else {
                b.1 as i64
            };
            let max_x: i64 = if (b.2 as i64) > iw {
                iw
            } else {
                b.2 as i64
            };
            let max_y: i64 = if (b.3 as i64) > ih {
                ih
            } else {
                b.3 as i64
            };
            if min_x >= max_x || min_y >= max_y {
                return PreparedArea {
                    pixels: AreaPixels::Owned(Vec::new()),
                    image_width: w as usize,
                    image_height: h as usize,
                    area_min_x: min_x as i32,
                    area_min_y: min_y as i32,
                    area_w: 0,
                    area_h: 0,
                    rect_min_x: min_x as i32,
                    rect_min_y: min_y as i32,
                    rect_w: 0,
                    rect_h: 0,
                };
            }
            let pad: i64 = kernel_padding as i64;
            let rx: i64 = if min_x - pad < 0 {
                0
            } else {
                min_x - pad
            };
            let ry: i64 = if min_y - pad < 0 {
                0
            } else {
                min_y - pad
            };
            let rmx: i64 = if max_x + pad > iw {
                iw
            } else {
                max_x + pad
            };
            let rmy: i64 = if max_y + pad > ih {
                ih
            } else {
                max_y + pad
            };
            let rw: i64 = rmx - rx;
            let rh: i64 = rmy - ry;
            let pixels: Vec<u8> = copy_rect(
                rgba,
                w as usize,
                h as usize,
                rx as usize,
                ry as usize,
                rw as usize,
                rh as usize,
            );
            PreparedArea {
                pixels: AreaPixels::Owned(pixels),
                image_width: w as usize,
                image_height: h as usize,
                area_min_x: min_x as i32,
                area_min_y: min_y as i32,
                area_w: (max_x - min_x) as i32,
                area_h: (max_y - min_y) as i32,
                rect_min_x: rx as i32,
                rect_min_y: ry as i32,
                rect_w: rw as i32,
                rect_h: rh as i32,
            }
        },
    }
}

/// Where a prepared area is processed.
#[derive(Clone, Copy, Debug, PartialEq, Eq, Structural)]
pub enum AreaRoute {
    /// The area is empty: nothing to do.
    Skip,
    /// Hand the area to the GPU provider.
    Gpu,
    /// Run the caller's processor on the CPU.
    Cpu,
}

/// Where an area of `area_w x area_h` pixels is processed: nowhere when it is empty, on
/// the GPU when `gpu_ready` (GPU use enabled, a provider registered, and the provider
/// accepting the area), on the CPU otherwise. A GPU attempt that fails falls back to the
/// CPU route.
pub fn area_route(area_w: i32, area_h: i32, gpu_ready: bool) -> (r: AreaRoute)
    ensures
        r == (if area_w == 0 || area_h == 0 {
            AreaRoute::Skip
        } else if gpu_ready {
            AreaRoute::Gpu
        } else {
            AreaRoute::Cpu
        }),
{
    if area_w == 0 || area_h == 0 {
        AreaRoute::Skip
    } else if gpu_ready {
        AreaRoute::Gpu
    } else {
        AreaRoute::Cpu
    }
}

} // verus!
