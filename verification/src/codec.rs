//! The image codec and resampler, reached through contracts that are taken on
//! trust: nothing here is proved of the `image` crate.

use vstd::prelude::*;
use crate::raster::{RasterImage, raster_len};

verus! {

/// What decoding a byte buffer gives: width, height and the pixels as four
/// 8-bit channels each, or `None` where the bytes are no image.
pub uninterp spec fn decoded_rgba(bytes: Seq<u8>) -> Option<(u32, u32, Seq<u8>)>;

/// The PNG file that encoding a raster gives, or `None` where the encoder refuses it.
pub uninterp spec fn png_encoded(width: u32, height: u32, pixels: Seq<u8>) -> Option<Seq<u8>>;

/// The pixels of a raster resampled to a new size with the given filter.
pub uninterp spec fn resampled(
    width: u32,
    height: u32,
    pixels: Seq<u8>,
    new_width: u32,
    new_height: u32,
    filter: ResampleFilter,
) -> Seq<u8>;

/// The smoothing kernels used when an image changes size.
#[derive(Clone, Copy, Debug, PartialEq, Eq)]
pub enum ResampleFilter {
    /// Linear interpolation.
    Triangle,
    /// Windowed sinc with three lobes.
    Lanczos3,
}

/// Luminance of one colour, on the scale of its channels.
pub open spec fn luma_of(r: u8, g: u8, b: u8) -> u8 {
    ((2126 * (r as int) + 7152 * (g as int) + 722 * (b as int)) / 10000) as u8
}

/// The grey version of a pixel buffer: each colour channel replaced by the
/// pixel's luminance, alpha kept.
pub open spec fn gray_pixels(pixels: Seq<u8>) -> Seq<u8> {
    Seq::new(
        pixels.len(),
        |i: int|
            if i % 4 == 3 {
                pixels[i]
            } else {
                luma_of(pixels[i - i % 4], pixels[i - i % 4 + 1], pixels[i - i % 4 + 2])
            },
    )
}

/// Calls `image::load_from_memory` and converts what it returns to four 8-bit
/// channels with `DynamicImage::to_rgba8`. On trust: the outcome depends on
/// the bytes alone, and a decoded raster holds `width * height` pixels. An
/// error carries the decoder's message.
#[verifier::external_body]
pub(crate) fn decode_rgba(bytes: &[u8]) -> (r: Result<RasterImage, String>)
    ensures
        match r {
            Ok(img) => decoded_rgba(bytes@) == Some((img.width, img.height, img.pixels@))
                && img.wf(),
            Err(_) => decoded_rgba(bytes@) is None,
        },
{
    match image::load_from_memory(bytes) {
        Ok(img) => {
            let rgba = img.to_rgba8();
            let (width, height) = rgba.dimensions();
            Ok(RasterImage { width, height, pixels: rgba.into_raw() })
        },
        Err(e) => Err(e.to_string()),
    }
}

/// Calls `DynamicImage::write_to` with the PNG format on the raster. On trust:
/// the file depends on the raster alone. An error carries the encoder's
/// message.
#[verifier::external_body]
pub(crate) fn encode_png(img: &RasterImage) -> (r: Result<Vec<u8>, String>)
    requires
        img.wf(),
    ensures
        match r {
            Ok(bytes) => png_encoded(img.width, img.height, img.pixels@) == Some(bytes@),
            Err(_) => png_encoded(img.width, img.height, img.pixels@) is None,
        },
{
    let buf = image::RgbaImage::from_raw(img.width, img.height, img.pixels.clone()).unwrap();
    let mut out = Vec::new();
    let format = image::ImageOutputFormat::Png;
    match image::DynamicImage::ImageRgba8(buf).write_to(&mut std::io::Cursor::new(&mut out), format) {
        Ok(()) => Ok(out),
        Err(e) => Err(e.to_string()),
    }
}

/// Calls `DynamicImage::grayscale` on the raster and reads the result back as
/// four channels. On trust: the size is kept, each colour channel becomes the
/// pixel's luminance, and alpha is kept.
#[verifier::external_body]
pub(crate) fn grayscale(img: &RasterImage) -> (out: RasterImage)
    requires
        img.wf(),
    ensures
        out.width == img.width,
        out.height == img.height,
        out.pixels@ == gray_pixels(img.pixels@),
        out.wf(),
{
    let buf = image::RgbaImage::from_raw(img.width, img.height, img.pixels.clone()).unwrap();
    let gray = image::DynamicImage::ImageRgba8(buf).grayscale().to_rgba8();
    RasterImage { width: img.width, height: img.height, pixels: gray.into_raw() }
}

/// The buffers that resampling allocates fit in memory: the result, and an
/// intermediate image of the old width and the new height with four times
/// the bytes per pixel.
pub open spec fn resample_fits(width: u32, new_width: u32, new_height: u32) -> bool {
    raster_len(new_width as int, new_height as int) <= isize::MAX && 4 * raster_len(
        width as int,
        new_height as int,
    ) <= isize::MAX
}

/// Tells whether the buffers that resampling allocates fit in memory.
pub fn fits_resample(width: u32, new_width: u32, new_height: u32) -> (r: bool)
    ensures
        r == resample_fits(width, new_width, new_height),
{
    assert(0 <= (new_width as int) * (new_height as int) <= 0xffff_ffff * 0xffff_ffff)
        by (nonlinear_arith)
        requires
            0 <= new_width <= 0xffff_ffff,
            0 <= new_height <= 0xffff_ffff,
    ;
    assert(0 <= (width as int) * (new_height as int) <= 0xffff_ffff * 0xffff_ffff)
        by (nonlinear_arith)
        requires
            0 <= width <= 0xffff_ffff,
            0 <= new_height <= 0xffff_ffff,
    ;
    let result_len: u128 = (new_width as u128) * (new_height as u128) * 4;
    let between_len: u128 = (width as u128) * (new_height as u128) * 4;
    result_len <= isize::MAX as u128 && 4 * between_len <= isize::MAX as u128
}

/// Calls `image::imageops::resize` on the raster. On trust: the result
/// depends on the arguments alone and holds `new_width * new_height` pixels.
/// The source must have pixels, and the buffers must fit in memory.
#[verifier::external_body]
pub(crate) fn resample(
    img: &RasterImage,
    new_width: u32,
    new_height: u32,
    filter: ResampleFilter,
) -> (out: RasterImage)
    requires
        img.wf(),
        img.width > 0,
        img.height > 0,
        resample_fits(img.width, new_width, new_height),
    ensures
        out.width == new_width,
        out.height == new_height,
        out.pixels@ == resampled(
            img.width,
            img.height,
            img.pixels@,
            new_width,
            new_height,
            filter,
        ),
        out.wf(),
{
    let buf = image::RgbaImage::from_raw(img.width, img.height, img.pixels.clone()).unwrap();
    let kernel = match filter {
        ResampleFilter::Triangle => image::imageops::FilterType::Triangle,
        ResampleFilter::Lanczos3 => image::imageops::FilterType::Lanczos3,
    };
    let small = image::imageops::resize(&buf, new_width, new_height, kernel);
    RasterImage { width: new_width, height: new_height, pixels: small.into_raw() }
}

} // verus!
