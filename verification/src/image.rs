//! An RGBA8 raster image.
use vstd::prelude::*;
use vstd::string::StringExecFns;
use crate::grid::{px_index, lemma_px_index_bounds};

verus! {

/// The `(r, g, b, a)` bytes of pixel `(x, y)` of a row-major RGBA buffer of width `w`.
pub open spec fn pixel_at(s: Seq<u8>, w: int, x: int, y: int) -> (u8, u8, u8, u8) {
    let i = px_index(w, x, y, 0);
    (s[i], s[i + 1], s[i + 2], s[i + 3])
}

/// The buffer `s` with pixel `(x, y)` set to `p`.
pub open spec fn with_pixel(s: Seq<u8>, w: int, x: int, y: int, p: (u8, u8, u8, u8)) -> Seq<u8> {
    let i = px_index(w, x, y, 0);
    s.update(i, p.0).update(i + 1, p.1).update(i + 2, p.2).update(i + 3, p.3)
}

/// Reading a pixel after writing it gives back what was written, and every other
/// pixel keeps its value.
pub proof fn lemma_read_after_write(s: Seq<u8>, w: int, h: int, x: int, y: int, p: (u8, u8, u8, u8), x2: int, y2: int)
    requires
        s.len() == w * h * 4,
        0 <= x < w,
        0 <= y < h,
        0 <= x2 < w,
        0 <= y2 < h,
    ensures
        pixel_at(with_pixel(s, w, x, y, p), w, x, y) == p,
        (x2 != x || y2 != y) ==> pixel_at(with_pixel(s, w, x, y, p), w, x2, y2) == pixel_at(s, w, x2, y2),
        with_pixel(s, w, x, y, p).len() == s.len(),
{
    lemma_px_index_bounds(w, h, x, y, 3);
    lemma_px_index_bounds(w, h, x2, y2, 3);
    if x2 != x || y2 != y {
        assert(y2 * w + x2 != y * w + x) by (nonlinear_arith)
            requires
                0 <= x < w,
                0 <= x2 < w,
                x2 != x || y2 != y,
        ;
    }
}

/// Marker for owners that must stay alive while a borrowed image is in use.
pub trait GuardedOwner {}

/// An image of `width * height` pixels stored row by row, four bytes
/// (red, green, blue, alpha) per pixel.
#[derive(Debug)]
pub struct Image {
    width: u32,
    height: u32,
    pixels: Vec<u8>,
}

impl Image {
    #[verifier::type_invariant]
    spec fn well_formed(self) -> bool {
        self.pixels.len() == self.width * self.height * 4
    }

    /// Width in pixels.
    pub closed spec fn spec_width(&self) -> nat {
        self.width as nat
    }

    /// Height in pixels.
    pub closed spec fn spec_height(&self) -> nat {
        self.height as nat
    }

    /// The RGBA bytes, row by row.
    pub closed spec fn spec_rgba(&self) -> Seq<u8> {
        self.pixels@
    }

    /// Returns `(width, height)` and records that the buffer holds four bytes per pixel.
    pub fn shape(&self) -> (d: (u32, u32))
        ensures
            d.0 == self.spec_width(),
            d.1 == self.spec_height(),
            self.spec_rgba().len() == self.spec_width() * self.spec_height() * 4,
    {
        proof { use_type_invariant(self); }
        (self.width, self.height)
    }

    /// Creates a `width x height` image whose bytes are all zero.
    pub fn new(width: u32, height: u32) -> (img: Image)
        requires
            width * height * 4 <= usize::MAX,
        ensures
            img.spec_width() == width,
            img.spec_height() == height,
            img.spec_rgba() == Seq::new((width * height * 4) as nat, |i: int| 0u8),
    {
        let n: usize = (width as usize) * (height as usize) * 4;
        let mut pixels: Vec<u8> = Vec::new();
        let mut i: usize = 0;
        while i < n
            invariant
                i <= n,
                pixels@ == Seq::new(i as nat, |k: int| 0u8),
            decreases n - i,
        {
            pixels.push(0u8);
            i = i + 1;
        }
        Image { width, height, pixels }
    }

    /// Creates an image from RGBA bytes laid out row by row.
    pub fn new_from_rgba(width: u32, height: u32, pixels: Vec<u8>) -> (img: Image)
        requires
            pixels.len() == width * height * 4,
        ensures
            img.spec_width() == width,
            img.spec_height() == height,
            img.spec_rgba() == pixels@,
    {
        Image { width, height, pixels }
    }

    /// Returns `(width, height)`.
    pub fn dimensions(&self) -> (d: (u32, u32))
        ensures
            d.0 == self.spec_width(),
            d.1 == self.spec_height(),
    {
        (self.width, self.height)
    }

    /// The RGBA bytes of the image.
    pub fn rgba(&self) -> (s: &[u8])
        ensures
            s@ == self.spec_rgba(),
    {
        self.pixels.as_slice()
    }

    /// A copy of the RGBA bytes of the image.
    pub fn to_rgba_vec(&self) -> (v: Vec<u8>)
        ensures
            v@ == self.spec_rgba(),
    {
        self.pixels.clone()
    }

    /// Consumes the image and returns its RGBA bytes.
    pub fn into_rgba_vec(self) -> (v: Vec<u8>)
        ensures
            v@ == self.spec_rgba(),
    {
        proof { use_type_invariant(&self); }
        let Image { width: _, height: _, pixels } = self;
        pixels
    }

    /// Replaces the pixel bytes, keeping the dimensions.
    pub fn set_rgba_owned(&mut self, pixels: Vec<u8>)
        requires
            pixels.len() == old(self).spec_width() * old(self).spec_height() * 4,
        ensures
            final(self).spec_width() == old(self).spec_width(),
            final(self).spec_height() == old(self).spec_height(),
            final(self).spec_rgba() == pixels@,
    {
        self.pixels = pixels;
    }

    /// The `(r, g, b, a)` value of pixel `(x, y)`, or `None` outside the image.
    pub fn get_pixel(&self, x: u32, y: u32) -> (p: Option<(u8, u8, u8, u8)>)
        ensures
            (x < self.spec_width() && y < self.spec_height()) <==> p is Some,
            p matches Some(v) ==> v == pixel_at(self.spec_rgba(), self.spec_width() as int, x as int, y as int),
    {
        proof { use_type_invariant(self); }
        if x < self.width && y < self.height {
            proof {
                lemma_px_index_bounds(self.width as int, self.height as int, x as int, y as int, 3);
            }
            let i: usize = ((y as usize) * (self.width as usize) + (x as usize)) * 4;
            Some((self.pixels[i], self.pixels[i + 1], self.pixels[i + 2], self.pixels[i + 3]))
        } else {
            None
        }
    }

    /// Writes pixel `(x, y)`; a position outside the image leaves it unchanged.
    pub fn set_pixel(&mut self, x: u32, y: u32, p: (u8, u8, u8, u8))
        ensures
            final(self).spec_width() == old(self).spec_width(),
            final(self).spec_height() == old(self).spec_height(),
            (x < old(self).spec_width() && y < old(self).spec_height()) ==> final(self).spec_rgba() == with_pixel(
                old(self).spec_rgba(),
                old(self).spec_width() as int,
                x as int,
                y as int,
                p,
            ),
            !(x < old(self).spec_width() && y < old(self).spec_height()) ==> final(self).spec_rgba()
                == old(self).spec_rgba(),
    {
        proof { use_type_invariant(&*self); }
        if x < self.width && y < self.height {
            proof {
                lemma_px_index_bounds(self.width as int, self.height as int, x as int, y as int, 3);
            }
            let i: usize = ((y as usize) * (self.width as usize) + (x as usize)) * 4;
            let mut pixels: Vec<u8> = self.pixels.clone();
            pixels.set(i, p.0);
            pixels.set(i + 1, p.1);
            pixels.set(i + 2, p.2);
            pixels.set(i + 3, p.3);
            self.pixels = pixels;
        }
    }
}

/// The memory limit, in bytes, given to the WebP decoder.
pub const WEBP_MEMORY_LIMIT: usize = 1073741824;

/// What decoding the WebP file `bytes` under the memory limit `memory_limit` gives:
/// `(width, height, has_alpha, pixel bytes)`, or the error text.
pub uninterp spec fn webp_decoded(bytes: Seq<u8>, memory_limit: usize) -> Result<(u32, u32, bool, Seq<u8>), Seq<char>>;

/// Bytes per pixel of decoded WebP data: 4 with alpha (RGBA), 3 without (RGB).
pub open spec fn webp_bytes_per_pixel(has_alpha: bool) -> int {
    if has_alpha { 4 } else { 3 }
}

/// RGB bytes (three per pixel) spread to RGBA bytes with every alpha at 255.
pub open spec fn rgb_to_rgba(px: Seq<u8>) -> Seq<u8> {
    Seq::new(((px.len() / 3) * 4) as nat, |i: int| if i % 4 == 3 { 255u8 } else { px[(i / 4) * 3 + i % 4] })
}

/// The RGBA bytes of decoded pixel data: as they are with alpha, spread from RGB without.
pub open spec fn decoded_rgba(has_alpha: bool, px: Seq<u8>) -> Seq<u8> {
    if has_alpha { px } else { rgb_to_rgba(px) }
}

/// The error text for pixel data whose length does not fit the image size.
pub open spec fn pixel_mismatch_message() -> Seq<char> {
    "Pixel buffer does not match the image size"@
}

/// Decodes the WebP file `bytes` with `image_webp::WebPDecoder` (its memory limit set to
/// `memory_limit`): `(width, height, has_alpha, pixels)`, the pixels laid out row by row
/// as RGBA or RGB. Claimed: the result is `webp_decoded(bytes@, memory_limit)`, a function
/// of its arguments; on success the buffer is `output_buffer_size()` long, which is what
/// `read_image` checks, so it holds `width * height` pixels of 4 or 3 bytes.
#[verifier::external_body]
pub fn decode_webp(bytes: &[u8], memory_limit: usize) -> (r: Result<(u32, u32, bool, Vec<u8>), String>)
    ensures
        match r {
            Ok(d) => webp_decoded(bytes@, memory_limit) == Ok::<(u32, u32, bool, Seq<u8>), Seq<char>>((d.0, d.1, d.2, d.3@))
                && d.3.len() == d.0 * d.1 * webp_bytes_per_pixel(d.2),
            Err(e) => webp_decoded(bytes@, memory_limit) == Err::<(u32, u32, bool, Seq<u8>), Seq<char>>(e@),
        },
{
    let mut decoder = image_webp::WebPDecoder::new(std::io::Cursor::new(bytes))
        .map_err(|e| format!("Failed to create WebP decoder: {:?}", e))?;
    decoder.set_memory_limit(memory_limit);
    let (width, height) = decoder.dimensions();
    let size = decoder.output_buffer_size().ok_or_else(|| format!("Image too large to decode: {}x{}", width, height))?;
    let mut pixels = vec![0u8; size];
    decoder.read_image(&mut pixels).map_err(|e| format!("Failed to decode WebP image: {:?}", e))?;
    Ok((width, height, decoder.has_alpha(), pixels))
}

/// An image from decoded pixel data: RGBA bytes are taken as they are, RGB bytes get an
/// alpha of 255. An error when the data does not hold `width * height` pixels, or when
/// the image would not fit in memory.
pub fn image_from_decoded(width: u32, height: u32, has_alpha: bool, px: Vec<u8>) -> (r: Result<Image, String>)
    ensures
        r is Ok <==> (px.len() == width * height * webp_bytes_per_pixel(has_alpha) && width * height * 4 <= usize::MAX),
        r matches Ok(img) ==> img.spec_width() == width && img.spec_height() == height
            && img.spec_rgba() == decoded_rgba(has_alpha, px@),
        r matches Err(e) ==> e@ == pixel_mismatch_message(),
{
    let bpp: usize = if has_alpha { 4 } else { 3 };
    let wide = (width as usize).checked_mul(height as usize);
    let n: usize = match wide {
        Some(n) => n,
        None => {
            proof {
                assert(width * height * webp_bytes_per_pixel(has_alpha) > usize::MAX) by (nonlinear_arith)
                    requires width * height > usize::MAX, webp_bytes_per_pixel(has_alpha) >= 3;
            }
            return Err(String::from_str("Pixel buffer does not match the image size"));
        },
    };
    let four = n.checked_mul(4);
    let total: usize = match four {
        Some(t) => t,
        None => return Err(String::from_str("Pixel buffer does not match the image size")),
    };
    if px.len() / bpp != n || px.len() % bpp != 0 {
        return Err(String::from_str("Pixel buffer does not match the image size"));
    }
    if has_alpha {
        return Ok(Image::new_from_rgba(width, height, px));
    }
    let mut out: Vec<u8> = Vec::new();
    let mut k: usize = 0;
    while k < n
        invariant
            k <= n,
            px.len() == 3 * n,
            total == 4 * n,
            out.len() == 4 * k,
            forall|i: int| 0 <= i < 4 * k ==> #[trigger] out@[i] == rgb_to_rgba(px@)[i],
        decreases n - k,
    {
        let ghost before: Seq<u8> = out@;
        out.push(px[3 * k]);
        out.push(px[3 * k + 1]);
        out.push(px[3 * k + 2]);
        out.push(255u8);
        proof {
            assert forall|i: int| 0 <= i < 4 * (k + 1) implies #[trigger] out@[i] == rgb_to_rgba(px@)[i] by {
                if i < 4 * k {
                    assert(out@[i] == before[i]);
                }
            }
        }
        k = k + 1;
    }
    proof {
        assert(out@ =~= rgb_to_rgba(px@));
    }
    Ok(Image::new_from_rgba(width, height, out))
}

/// The image in the WebP file `bytes`, decoded under `WEBP_MEMORY_LIMIT`: the decoder's
/// error text when decoding fails, else the image of `image_from_decoded`.
pub fn image_from_webp_bytes(bytes: &[u8]) -> (r: Result<Image, String>)
    ensures
        match webp_decoded(bytes@, WEBP_MEMORY_LIMIT) {
            Err(m) => r matches Err(e) && e@ == m,
            Ok(d) => {
                &&& r is Ok <==> d.0 * d.1 * 4 <= usize::MAX
                &&& r matches Ok(img) ==> img.spec_width() == d.0 && img.spec_height() == d.1
                    && img.spec_rgba() == decoded_rgba(d.2, d.3)
                &&& r matches Err(e) ==> e@ == pixel_mismatch_message()
            },
        },
{
    match decode_webp(bytes, WEBP_MEMORY_LIMIT) {
        Ok(d) => image_from_decoded(d.0, d.1, d.2, d.3),
        Err(e) => Err(e),
    }
}

impl Clone for Image {
    /// A copy of the image: same dimensions, same bytes.
    fn clone(&self) -> (c: Self)
        ensures
            c.spec_width() == self.spec_width(),
            c.spec_height() == self.spec_height(),
            c.spec_rgba() == self.spec_rgba(),
    {
        proof { use_type_invariant(self); }
        let pixels: Vec<u8> = self.pixels.clone();
        proof { assert(pixels@ =~= self.pixels@); }
        Image { width: self.width, height: self.height, pixels }
    }
}

} // verus!
