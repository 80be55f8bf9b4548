use vstd::prelude::*;
use crate::render::RenderError;
use crate::types::Dimensions;

verus! {

#[verifier::external_type_specification]
#[verifier::external_body]
pub struct ExIoError(std::io::Error);

/// The bytes of the 8-bit greyscale PNG file that the image crate writes for
/// the row-major buffer `pixels` of the given size.
pub uninterp spec fn grey_png(pixels: Seq<u8>, width: u32, height: u32) -> Seq<u8>;

/// Relies on image's `png::PNGEncoder::encode` with `ColorType::Gray(8)`,
/// writing into memory: the png crate refuses a zero width or height and a
/// buffer that does not hold `width * height` bytes, and writing into a `Vec`
/// does not fail otherwise.
#[verifier::external_body]
fn encode_grey_png(pixels: &[u8], width: u32, height: u32) -> (r: Result<Vec<u8>, std::io::Error>)
    ensures
        (r is Ok) == (width > 0 && height > 0 && pixels@.len() == width * height),
        (r is Ok) ==> r->Ok_0@ == grey_png(pixels@, width, height),
{
    let mut out: Vec<u8> = Vec::new();
    let encoded = image::png::PNGEncoder::new(&mut out).encode(
        pixels,
        width,
        height,
        image::ColorType::Gray(8),
    );
    encoded.map(|_| out)
}

/// Encodes the greyscale buffer `pixels` of an image of size `bounds` as a
/// PNG file. Fails with `InvalidDimensions` when a side is zero, `TooLarge`
/// when a side does not fit the format's 32 bits, and `BufferSize` when the
/// buffer does not hold one byte per pixel.
pub fn encode_image(pixels: &Vec<u8>, bounds: Dimensions) -> (r: Result<Vec<u8>, RenderError>)
    ensures
        (bounds.width == 0 || bounds.height == 0) ==> r == Err::<Vec<u8>, RenderError>(
            RenderError::InvalidDimensions,
        ),
        (bounds.width > 0 && bounds.height > 0 && (bounds.width > u32::MAX || bounds.height
            > u32::MAX)) ==> r == Err::<Vec<u8>, RenderError>(RenderError::TooLarge),
        (bounds.width > 0 && bounds.height > 0 && bounds.width <= u32::MAX && bounds.height
            <= u32::MAX && pixels@.len() != bounds.pixel_count()) ==> r == Err::<
            Vec<u8>,
            RenderError,
        >(RenderError::BufferSize),
        (r is Ok) == (bounds.width > 0 && bounds.height > 0 && bounds.width <= u32::MAX
            && bounds.height <= u32::MAX && pixels@.len() == bounds.pixel_count()),
        (r is Ok) ==> r->Ok_0@ == grey_png(pixels@, bounds.width as u32, bounds.height as u32),
{
    if bounds.width == 0 || bounds.height == 0 {
        return Err(RenderError::InvalidDimensions);
    }
    if bounds.width > u32::MAX as usize || bounds.height > u32::MAX as usize {
        return Err(RenderError::TooLarge);
    }
    match encode_grey_png(pixels.as_slice(), bounds.width as u32, bounds.height as u32) {
        Ok(bytes) => Ok(bytes),
        Err(_) => Err(RenderError::BufferSize),
    }
}

} // verus!
