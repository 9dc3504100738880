//! The raster image containers, which the `image` crate reads and writes.
//!
//! Nothing in this module is proved: each function hands its arguments to
//! the `image` crate, and its contract gives the crate's result a name.

use vstd::prelude::*;
use std::io::Cursor;
use image::codecs::bmp::BmpDecoder;
use image::codecs::jpeg::JpegDecoder;
use image::codecs::png::{PngDecoder, PngEncoder};
use image::{DynamicImage, ImageDecoder, RgbImage};

verus! {

/// The PNG file of the image of `width` by `height` pixels whose pixels,
/// row after row, three bytes each, are `rgb`; `None` where the encoder
/// refuses the image.
pub uninterp spec fn png_bytes(width: u32, height: u32, rgb: Seq<u8>) -> Option<Seq<u8>>;

/// The width and height that the header of the PNG file `bytes` gives.
pub uninterp spec fn png_size(bytes: Seq<u8>) -> Option<(u32, u32)>;

/// The pixels of the PNG file `bytes` as red, green and blue bytes, row
/// after row.
pub uninterp spec fn png_pixels(bytes: Seq<u8>) -> Option<Seq<u8>>;

/// The width and height that the header of the JPEG file `bytes` gives.
pub uninterp spec fn jpeg_size(bytes: Seq<u8>) -> Option<(u32, u32)>;

/// The width and height that the header of the BMP file `bytes` gives.
pub uninterp spec fn bmp_size(bytes: Seq<u8>) -> Option<(u32, u32)>;

/// The pixels of the BMP file `bytes` as red, green and blue bytes, row
/// after row.
pub uninterp spec fn bmp_pixels(bytes: Seq<u8>) -> Option<Seq<u8>>;

/// Calls `RgbImage::from_vec` and `ImageBuffer::write_with_encoder` with a
/// `PngEncoder`. The result is named `png_bytes`.
#[verifier::external_body]
pub(crate) fn encode_png(width: u32, height: u32, rgb: Vec<u8>) -> (png: Option<Vec<u8>>)
    ensures
        match png {
            Some(file) => png_bytes(width, height, rgb@) == Some(file@),
            None => png_bytes(width, height, rgb@).is_none(),
        },
{
    let image = RgbImage::from_vec(width, height, rgb)?;
    let mut bytes = Vec::new();
    image.write_with_encoder(PngEncoder::new(&mut bytes)).ok()?;
    Some(bytes)
}

/// Calls `PngDecoder::new` and `ImageDecoder::dimensions`. The result is
/// named `png_size`.
#[verifier::external_body]
pub(crate) fn read_png_size(bytes: &Vec<u8>) -> (size: Option<(u32, u32)>)
    ensures
        size == png_size(bytes@),
{
    Some(PngDecoder::new(Cursor::new(bytes.as_slice())).ok()?.dimensions())
}

/// Calls `PngDecoder::new`, `DynamicImage::from_decoder` and
/// `DynamicImage::to_rgb8`. The result is named `png_pixels`. The decoder
/// allocates by the size that the header gives, so the header must give
/// 64 by 64 pixels.
#[verifier::external_body]
pub(crate) fn read_png_pixels(bytes: &Vec<u8>) -> (rgb: Option<Vec<u8>>)
    requires
        png_size(bytes@) == Some((64u32, 64u32)),
    ensures
        match rgb {
            Some(pixels) => png_pixels(bytes@) == Some(pixels@),
            None => png_pixels(bytes@).is_none(),
        },
{
    let decoder = PngDecoder::new(Cursor::new(bytes.as_slice())).ok()?;
    Some(DynamicImage::from_decoder(decoder).ok()?.to_rgb8().into_raw())
}

/// Calls `JpegDecoder::new` and `ImageDecoder::dimensions`. The result is
/// named `jpeg_size`.
#[verifier::external_body]
pub(crate) fn read_jpeg_size(bytes: &Vec<u8>) -> (size: Option<(u32, u32)>)
    ensures
        size == jpeg_size(bytes@),
{
    Some(JpegDecoder::new(Cursor::new(bytes.as_slice())).ok()?.dimensions())
}

/// Calls `JpegDecoder::new`, `DynamicImage::from_decoder` and
/// `DynamicImage::to_rgb8`. The decoder picks its arithmetic by the
/// machine, so nothing is said of the pixels. It allocates by the size
/// that the header gives, so the header must give 64 by 64 pixels.
#[verifier::external_body]
pub(crate) fn read_jpeg_pixels(bytes: &Vec<u8>) -> (rgb: Option<Vec<u8>>)
    requires
        jpeg_size(bytes@) == Some((64u32, 64u32)),
{
    let decoder = JpegDecoder::new(Cursor::new(bytes.as_slice())).ok()?;
    Some(DynamicImage::from_decoder(decoder).ok()?.to_rgb8().into_raw())
}

/// Calls `BmpDecoder::new` and `ImageDecoder::dimensions`. The result is
/// named `bmp_size`.
#[verifier::external_body]
pub(crate) fn read_bmp_size(bytes: &Vec<u8>) -> (size: Option<(u32, u32)>)
    ensures
        size == bmp_size(bytes@),
{
    Some(BmpDecoder::new(Cursor::new(bytes.as_slice())).ok()?.dimensions())
}

/// Calls `BmpDecoder::new`, `DynamicImage::from_decoder` and
/// `DynamicImage::to_rgb8`. The result is named `bmp_pixels`. The decoder
/// allocates by the size that the header gives, so the header must give
/// 64 by 64 pixels.
#[verifier::external_body]
pub(crate) fn read_bmp_pixels(bytes: &Vec<u8>) -> (rgb: Option<Vec<u8>>)
    requires
        bmp_size(bytes@) == Some((64u32, 64u32)),
    ensures
        match rgb {
            Some(pixels) => bmp_pixels(bytes@) == Some(pixels@),
            None => bmp_pixels(bytes@).is_none(),
        },
{
    let decoder = BmpDecoder::new(Cursor::new(bytes.as_slice())).ok()?;
    Some(DynamicImage::from_decoder(decoder).ok()?.to_rgb8().into_raw())
}

} // verus!
