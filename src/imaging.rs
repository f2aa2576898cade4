//! The image codecs the decoders rely on, and the raw picture they hand back.

use vstd::prelude::*;

verus! {

/// The image crate's decoding error, carried through without looking inside.
#[verifier::external_type_specification]
#[verifier::external_body]
pub struct ExImageError(image::ImageError);

/// A decoded picture: its size, the bytes per pixel of the colour type it
/// was encoded in, and its pixels as 8-bit RGB, row-major.
#[derive(Debug)]
pub struct DecodedImage {
    pub width: u32,
    pub height: u32,
    pub bytes_per_pixel: u8,
    pub pixels: Vec<u8>,
}

/// What the JPEG decoder makes of a payload: width, height, bytes per pixel
/// of its colour type, and its pixels as 8-bit RGB; or nothing where the
/// payload is not a JPEG it can decode.
pub uninterp spec fn jpeg_image_of(payload: Seq<u8>) -> Option<(u32, u32, u8, Seq<u8>)>;

/// What the PNG decoder makes of a file, in the same shape.
pub uninterp spec fn png_image_of(data: Seq<u8>) -> Option<(u32, u32, u8, Seq<u8>)>;

/// The outcome that a decoder's result stands for.
pub open spec fn decoded_view(r: Result<DecodedImage, image::ImageError>) -> Option<(u32, u32, u8, Seq<u8>)> {
    match r {
        Ok(img) => Some((img.width, img.height, img.bytes_per_pixel, img.pixels@)),
        Err(_) => None,
    }
}

/// Relies on image's `JpegDecoder::new`, `DynamicImage::from_decoder` and
/// `DynamicImage::into_rgb8`: the decoded picture, or the error, depends on
/// the payload bytes alone.
#[verifier::external_body]
pub(crate) fn decode_jpeg(payload: &[u8]) -> (r: Result<DecodedImage, image::ImageError>)
    ensures
        decoded_view(r) == jpeg_image_of(payload@),
{
    let decoder = image::codecs::jpeg::JpegDecoder::new(std::io::Cursor::new(payload))?;
    let img = image::DynamicImage::from_decoder(decoder)?;
    let (width, height) = (img.width(), img.height());
    let bytes_per_pixel = img.color().bytes_per_pixel();
    Ok(DecodedImage { width, height, bytes_per_pixel, pixels: img.into_rgb8().into_raw() })
}

/// Relies on image's `PngDecoder::new`, `DynamicImage::from_decoder` and
/// `DynamicImage::into_rgb8`: the decoded picture, or the error, depends on
/// the file's bytes alone. 16-bit samples, which the decoder holds in the
/// machine's byte order, reach the result only through `into_rgb8`'s integer
/// conversion to 8 bits, which is the same on every machine.
#[verifier::external_body]
pub(crate) fn decode_png(data: &[u8]) -> (r: Result<DecodedImage, image::ImageError>)
    ensures
        decoded_view(r) == png_image_of(data@),
{
    let decoder = image::codecs::png::PngDecoder::new(std::io::Cursor::new(data))?;
    let img = image::DynamicImage::from_decoder(decoder)?;
    let (width, height) = (img.width(), img.height());
    let bytes_per_pixel = img.color().bytes_per_pixel();
    Ok(DecodedImage { width, height, bytes_per_pixel, pixels: img.into_rgb8().into_raw() })
}

/// What drawing a filled disc of `color` leaves in an RGB raster.
pub uninterp spec fn disc_drawn(
    pixels: Seq<u8>,
    width: u32,
    height: u32,
    cx: i32,
    cy: i32,
    radius: i32,
    color: Seq<u8>,
) -> Seq<u8>;

/// Relies on imageproc's `draw_filled_circle_mut` on an `RgbImage`: it
/// draws the part of the disc that lies inside the image and keeps the
/// image's size. The bounds keep its `i32` arithmetic from overflowing.
#[verifier::external_body]
pub(crate) fn fill_disc(pixels: &mut Vec<u8>, width: u32, height: u32, cx: i32, cy: i32, radius: i32, color: [u8; 3])
    requires
        old(pixels)@.len() == width as int * height as int * 3,
        -0x4000_0000 <= cx <= 0x4000_0000,
        -0x4000_0000 <= cy <= 0x4000_0000,
        0 <= radius <= 0x4000,
    ensures
        final(pixels)@ == disc_drawn(old(pixels)@, width, height, cx, cy, radius, color@),
        final(pixels)@.len() == old(pixels)@.len(),
{
    let raw = std::mem::take(pixels);
    let mut img = image::RgbImage::from_raw(width, height, raw).unwrap();
    imageproc::drawing::draw_filled_circle_mut(&mut img, (cx, cy), radius, image::Rgb(color));
    *pixels = img.into_raw();
}

/// Whether a decoded picture is a complete RGB raster: encoded as 8-bit RGB,
/// three bytes per pixel, with exactly `width * height` pixels.
pub open spec fn is_rgb_raster(width: u32, height: u32, bytes_per_pixel: u8, pixels: Seq<u8>) -> bool {
    bytes_per_pixel == 3 && pixels.len() == width as int * height as int * 3
}

/// Tells whether `img` is a complete RGB raster (see `is_rgb_raster`).
pub fn rgb_raster(img: &DecodedImage) -> (r: bool)
    ensures
        r == is_rgb_raster(img.width, img.height, img.bytes_per_pixel, img.pixels@),
{
    let (w, h) = (img.width as u128, img.height as u128);
    assert(w * h * 3 < 0x1_0000_0000_0000_0000_0) by (nonlinear_arith)
        requires w < 0x1_0000_0000, h < 0x1_0000_0000;
    let expected: u128 = w * h * 3;
    img.bytes_per_pixel == 3 && img.pixels.len() as u128 == expected
}

} // verus!
