//! PNG encoding of images.
use vstd::prelude::*;
use crate::image::Image;

verus! {

/// How hard the PNG encoder compresses.
#[derive(Clone, Copy, Debug, PartialEq, Eq, Structural)]
pub enum PngCompression {
    /// Fast, light compression.
    Fastest,
    /// Balanced speed and size.
    Balanced,
    /// Slow, smallest files.
    High,
}

/// The compression level that a quality setting asks for: above 75 the fastest, above 25
/// balanced, else high; balanced when no quality is given.
pub open spec fn spec_compression_for_quality(quality: Option<u8>) -> PngCompression {
    match quality {
        Some(q) => if q > 75 {
            PngCompression::Fastest
        } else if q > 25 {
            PngCompression::Balanced
        } else {
            PngCompression::High
        },
        None => PngCompression::Balanced,
    }
}

/// The compression level for the quality setting `quality` (0 to 100).
pub fn compression_for_quality(quality: Option<u8>) -> (c: PngCompression)
    ensures
        c == spec_compression_for_quality(quality),
{
    match quality {
        Some(q) => if q > 75 {
            PngCompression::Fastest
        } else if q > 25 {
            PngCompression::Balanced
        } else {
            PngCompression::High
        },
        None => PngCompression::Balanced,
    }
}

/// The PNG file (8-bit RGBA) that the `png` crate writes for a `width x height` image with
/// RGBA bytes `rgba` at compression `compression`, or its error text.
pub uninterp spec fn png_encoded(width: u32, height: u32, rgba: Seq<u8>, compression: PngCompression) -> Result<Seq<u8>, Seq<char>>;

/// Encodes RGBA bytes as an 8-bit RGBA PNG file in memory with `png::Encoder` (header,
/// image data, end chunk). Claimed: the result is `png_encoded` of the arguments.
#[verifier::external_body]
pub fn encode_png(width: u32, height: u32, rgba: &[u8], compression: PngCompression) -> (r: Result<Vec<u8>, String>)
    ensures
        match r {
            Ok(v) => png_encoded(width, height, rgba@, compression) == Ok::<Seq<u8>, Seq<char>>(v@),
            Err(e) => png_encoded(width, height, rgba@, compression) == Err::<Seq<u8>, Seq<char>>(e@),
        },
{
    let mut out: Vec<u8> = Vec::new();
    let mut encoder = png::Encoder::new(&mut out, width, height);
    encoder.set_color(png::ColorType::Rgba);
    encoder.set_depth(png::BitDepth::Eight);
    encoder.set_compression(match compression {
        PngCompression::Fastest => png::Compression::Fastest,
        PngCompression::Balanced => png::Compression::Balanced,
        PngCompression::High => png::Compression::High,
    });
    let mut writer = encoder.write_header().map_err(|e| e.to_string())?;
    writer.write_image_data(rgba).map_err(|e| e.to_string())?;
    writer.finish().map_err(|e| e.to_string())?;
    Ok(out)
}

/// The PNG file of `image`, compressed as the quality setting `quality` asks.
pub fn encode_image_png(image: &Image, quality: Option<u8>) -> (r: Result<Vec<u8>, String>)
    ensures
        match png_encoded(image.spec_width() as u32, image.spec_height() as u32, image.spec_rgba(),
            spec_compression_for_quality(quality)) {
            Ok(v) => r matches Ok(b) && b@ == v,
            Err(m) => r matches Err(e) && e@ == m,
        },
{
    let (width, height) = image.dimensions();
    let compression: PngCompression = compression_for_quality(quality);
    encode_png(width, height, image.rgba(), compression)
}

} // verus!
