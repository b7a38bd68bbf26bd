//! Image containers: decoding file bytes into pixels and encoding pixels
//! into PNG or BMP files, through the `image` crate.
use vstd::prelude::*;

use image::png::{CompressionType as Pc, FilterType as Pf};
use image::ImageEncoder;

use crate::pixels::{PixelGrid, RgbImage};
use crate::prelude::{CompressionType, FilterType, StegError};

verus! {

/// The image crate's error type, carried through opaquely.
#[verifier::external_type_specification]
#[verifier::external_body]
pub struct ExImageError(image::ImageError);

/// What the image crate decodes an image file into, converted to 8-bit RGB:
/// width, height and row-major bytes; `None` when it cannot decode the file.
pub uninterp spec fn decoded_rgb8(file: Seq<u8>) -> Option<(u32, u32, Seq<u8>)>;

/// Relies on image::load_from_memory (decodes an image file held in memory,
/// or fails; the crate is built with its JPEG, PNG and BMP decoders only, so
/// any other format is refused with an error), then DynamicImage::to_rgb8 with ImageBuffer::dimensions and
/// ImageBuffer::into_raw: the result depends on the bytes alone, and the
/// converted buffer, made by ImageBuffer::new, holds three bytes per pixel.
#[verifier::external_body]
fn decode_rgb8(bytes: &[u8]) -> (r: Option<(u32, u32, Vec<u8>)>)
    ensures
        r is Some <==> decoded_rgb8(bytes@) is Some,
        r matches Some((w, h, data)) ==> decoded_rgb8(bytes@) == Some((w, h, data@)) && data@.len() == 3 * (w * h),
{
    match image::load_from_memory(bytes) {
        Ok(img) => {
            let buffer = img.to_rgb8();
            let (width, height) = buffer.dimensions();
            Some((width, height, buffer.into_raw()))
        },
        Err(_) => None,
    }
}

/// The pixels of an image file, when the image crate can decode it.
pub open spec fn decoded_grid(file: Seq<u8>) -> Option<PixelGrid> {
    match decoded_rgb8(file) {
        Some((w, h, data)) => Some(PixelGrid { width: w as nat, height: h as nat, bytes: data }),
        None => None,
    }
}

/// Whether the BMP encoder's 32-bit sizes hold an image of these dimensions.
pub open spec fn bmp_size_fits(width: nat, height: nat) -> bool {
    3 * width <= u32::MAX && 3 * (width * height) + 3 * height + 54 <= u32::MAX
}

/// The PNG file that the image crate writes for these RGB pixels.
pub uninterp spec fn png_encoding(
    pixels: Seq<u8>,
    width: u32,
    height: u32,
    compression: CompressionType,
    filter: FilterType,
) -> Seq<u8>;

/// The BMP file that the image crate writes for these RGB pixels.
pub uninterp spec fn bmp_encoding(pixels: Seq<u8>, width: u32, height: u32) -> Seq<u8>;

/// Relies on PngEncoder::new_with_quality and its ImageEncoder::write_image
/// with ColorType::Rgb8: writes a PNG file, which depends on the arguments
/// alone. With 8-bit RGB and a buffer of the right length, png's Writer::init
/// rejects only a zero width or height, and writing into a Vec cannot fail.
#[verifier::external_body]
fn png_bytes(pixels: &[u8], width: u32, height: u32, compression: CompressionType, filter: FilterType) -> (r: Result<Vec<u8>, image::ImageError>)
    requires
        pixels@.len() == 3 * (width * height),
    ensures
        r is Ok <==> (width > 0 && height > 0),
        r matches Ok(v) ==> v@ == png_encoding(pixels@, width, height, compression, filter),
{
    let ct = match compression { CompressionType::Default => Pc::Default, CompressionType::Fast => Pc::Fast, CompressionType::Best => Pc::Best, CompressionType::Huffman => Pc::Huffman, CompressionType::Rle => Pc::Rle };
    let ft = match filter { FilterType::NoFilter => Pf::NoFilter, FilterType::Sub => Pf::Sub, FilterType::Up => Pf::Up, FilterType::Avg => Pf::Avg, FilterType::Paeth => Pf::Paeth };
    let mut out: Vec<u8> = Vec::new();
    match image::png::PngEncoder::new_with_quality(&mut out, ct, ft).write_image(pixels, width, height, image::ColorType::Rgb8) {
        Ok(()) => Ok(out),
        Err(e) => Err(e),
    }
}

/// Relies on BmpEncoder::new and its ImageEncoder::write_image with
/// ColorType::Rgb8: writes a BMP file, which depends on the arguments alone.
/// The header sizes it computes in `u32` must not overflow; then its only
/// failures are those of the writer, and writing into a Vec cannot fail.
#[verifier::external_body]
fn bmp_bytes(pixels: &[u8], width: u32, height: u32) -> (r: Result<Vec<u8>, image::ImageError>)
    requires
        pixels@.len() == 3 * (width * height),
        3 * width <= u32::MAX,
        3 * (width * height) + 3 * height + 54 <= u32::MAX,
    ensures
        r is Ok,
        r matches Ok(v) ==> v@ == bmp_encoding(pixels@, width, height),
{
    let mut out: Vec<u8> = Vec::new();
    match image::bmp::BmpEncoder::new(&mut out).write_image(pixels, width, height, image::ColorType::Rgb8) {
        Ok(()) => Ok(out),
        Err(e) => Err(e),
    }
}

/// Decodes an image file (any format the image crate reads) into 8-bit RGB
/// pixels. Fails with `InvalidImage` when the bytes are not such a file.
pub fn load_rgb8(bytes: &[u8]) -> (r: Result<RgbImage, StegError>)
    ensures
        r is Ok <==> decoded_grid(bytes@) is Some,
        r matches Ok(img) ==> Some(img@) == decoded_grid(bytes@),
        r matches Err(e) ==> e == StegError::InvalidImage,
{
    match decode_rgb8(bytes) {
        Some((width, height, data)) => match RgbImage::from_raw(width, height, data) {
            Some(pixels) => Ok(pixels),
            None => Err(StegError::InvalidImage),
        },
        None => Err(StegError::InvalidImage),
    }
}

/// The PNG file of `img`.
pub fn png_file(img: &RgbImage, compression: CompressionType, filter: FilterType) -> (r: Result<Vec<u8>, StegError>)
    ensures
        r is Ok <==> img@.width > 0 && img@.height > 0,
        r matches Ok(v) ==> v@ == png_encoding(img@.bytes, img@.width as u32, img@.height as u32, compression, filter),
        r matches Err(e) ==> e == StegError::WriteFailed,
{
    // The call tells that the buffer holds three bytes per pixel.
    let _ = img.pixel_count();
    match png_bytes(img.as_raw().as_slice(), img.width(), img.height(), compression, filter) {
        Ok(v) => Ok(v),
        Err(_) => Err(StegError::WriteFailed),
    }
}

/// The BMP file of `img`; fails with `WriteFailed` for images too large for
/// the format's 32-bit sizes.
pub fn bmp_file(img: &RgbImage) -> (r: Result<Vec<u8>, StegError>)
    ensures
        r is Ok <==> bmp_size_fits(img@.width, img@.height),
        r matches Ok(v) ==> v@ == bmp_encoding(img@.bytes, img@.width as u32, img@.height as u32),
        r matches Err(e) ==> e == StegError::WriteFailed,
{
    let n = img.pixel_count();
    let w = img.width();
    let h = img.height();
    if w > 0x5555_5555 || n > 0x5555_5555 || 3 * n as u64 + 3 * h as u64 + 54 > 0xffff_ffff {
        return Err(StegError::WriteFailed);
    }
    match bmp_bytes(img.as_raw().as_slice(), w, h) {
        Ok(v) => Ok(v),
        Err(_) => Err(StegError::WriteFailed),
    }
}

} // verus!
