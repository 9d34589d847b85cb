//! Shared PNG encoding for blueprint export: RGBA pixels to PNG bytes.
use vstd::prelude::*;

verus! {

/// Largest width or height accepted for encoding. The encoder multiplies
/// the row length by the height in `usize`; this cap keeps that product
/// in range on every target, and 900 megapixels is far beyond any
/// blueprint.
pub const MAX_PNG_DIM: u32 = 30_000;

/// The PNG stream encoding of an RGBA8 image; the encoder is
/// deterministic, so the bytes are a function of the dimensions and the
/// pixel data alone.
pub uninterp spec fn png_encoding_of(w: int, h: int, rgba: Seq<u8>) -> Seq<u8>;

#[verifier::external_type_specification]
#[verifier::external_body]
pub struct ExEncodingError(png::EncodingError);

/// Failure to encode an image.
#[derive(Clone, Copy, Debug, PartialEq, Eq, Structural)]
pub enum PngError {
    EncodingFailed,
}

/// Relies on png::Encoder with RGBA color and 8-bit depth: on success the
/// stream it writes depends only on the dimensions and the pixel bytes;
/// and with nonzero dimensions and a buffer of exactly `4 * w * h` bytes
/// it succeeds, since writing into memory cannot fail and RGBA with 8-bit
/// depth is a valid combination.
#[verifier::external_body]
fn encode_png_rgba(width: u32, height: u32, rgba: &Vec<u8>) -> (r: Result<
    Vec<u8>,
    png::EncodingError,
>)
    requires
        width <= MAX_PNG_DIM,
        height <= MAX_PNG_DIM,
    ensures
        match r {
            Ok(v) => v@ == png_encoding_of(width as int, height as int, rgba@),
            Err(_) => true,
        },
        width >= 1 && height >= 1 && rgba@.len() == 4 * width * height ==> r is Ok,
{
    let mut buf = Vec::new();
    {
        let mut enc = png::Encoder::new(&mut buf, width, height);
        enc.set_color(png::ColorType::Rgba);
        enc.set_depth(png::BitDepth::Eight);
        let mut writer = enc.write_header()?;
        writer.write_image_data(rgba)?;
    }
    Ok(buf)
}

/// Encode RGBA8 pixels as PNG bytes. The same input always yields the
/// same stream, and encoding succeeds whenever the dimensions are nonzero
/// (up to `MAX_PNG_DIM` each) and the buffer holds exactly four bytes per
/// pixel.
pub fn encode_rgba_to_png_bytes(width: u32, height: u32, rgba: &Vec<u8>) -> (r: Result<
    Vec<u8>,
    PngError,
>)
    ensures
        match r {
            Ok(v) => v@ == png_encoding_of(width as int, height as int, rgba@),
            Err(e) => e == PngError::EncodingFailed,
        },
        (1 <= width <= MAX_PNG_DIM && 1 <= height <= MAX_PNG_DIM && rgba@.len() == 4 * width
            * height) ==> r is Ok,
{
    if width > MAX_PNG_DIM || height > MAX_PNG_DIM {
        return Err(PngError::EncodingFailed);
    }
    match encode_png_rgba(width, height, rgba) {
        Ok(v) => Ok(v),
        Err(_) => Err(PngError::EncodingFailed),
    }
}

} // verus!
