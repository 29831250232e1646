use vstd::prelude::*;

verus! {

/// The PNG file that the `png` crate's encoder, at its default settings,
/// writes for an 8-bit RGB image of `width` by `height` pixels with row-major
/// `pixels`.
pub uninterp spec fn png_rgb8_file(width: u32, height: u32, pixels: Seq<u8>) -> Seq<u8>;

/// Why the `png` crate refused to encode an image.
#[derive(Debug, Clone, Copy, PartialEq, Eq, Structural)]
pub enum PngEncodingError {
    /// Writing to the output failed.
    Io,
    /// The image's format is not valid, such as a zero width or height.
    Format,
    /// A parameter does not match the image, such as a pixel buffer of the wrong length.
    Parameter,
    /// The image exceeds the encoder's limits.
    LimitsExceeded,
}

/// Whether `width`, `height` and the pixel buffer length describe an
/// encodable 8-bit RGB image.
pub open spec fn png_rgb8_encodable(width: u32, height: u32, pixel_count: int) -> bool {
    width > 0 && height > 0 && pixel_count == width * height * 3
}

/// Encodes with `png::Encoder` (color `Rgb`, depth `Eight`, then
/// `write_header` and `write_image_data`) into `output`.
///
/// Trusted: in the png 0.18 source, `write_header` fails on a zero width or
/// height before writing, `write_image_data` fails when the buffer length is
/// not `width * height * 3`, and a `Vec` never fails a write, so success comes
/// exactly on encodable input; the bytes appended on success are named
/// `png_rgb8_file`. Whatever happens, the old contents of `output` stay in
/// front. What is appended before a failure is not stated. `write_image_data`
/// computes the expected buffer length `3 * width * height` without checking
/// for overflow before it compares lengths, so `requires` keeps it within
/// `usize`; the sizes it computes after a matching length stay within
/// `usize` since a slice holds at most `isize::MAX` bytes.
#[verifier::external_body]
fn encode_rgb8(output: &mut Vec<u8>, width: u32, height: u32, pixels: &[u8]) -> (result: Result<(), PngEncodingError>)
    requires
        width * height * 3 <= usize::MAX,
    ensures
        result is Ok <==> png_rgb8_encodable(width, height, pixels@.len() as int),
        result is Ok ==> final(output)@ == old(output)@ + png_rgb8_file(width, height, pixels@),
        !(width > 0 && height > 0) ==> result matches Err(PngEncodingError::Format),
        width > 0 && height > 0 && pixels@.len() != width * height * 3 ==> result matches Err(PngEncodingError::Parameter),
        final(output)@.len() >= old(output)@.len(),
        final(output)@.subrange(0, old(output)@.len() as int) == old(output)@,
{
    let mut encoder = png::Encoder::new(&mut *output, width, height);
    encoder.set_color(png::ColorType::Rgb);
    encoder.set_depth(png::BitDepth::Eight);
    let written = match encoder.write_header() {
        Ok(mut writer) => writer.write_image_data(pixels),
        Err(error) => Err(error),
    };
    written.map_err(|error| match error {
        png::EncodingError::IoError(_) => PngEncodingError::Io,
        png::EncodingError::Format(_) => PngEncodingError::Format,
        png::EncodingError::Parameter(_) => PngEncodingError::Parameter,
        png::EncodingError::LimitsExceeded => PngEncodingError::LimitsExceeded,
    })
}

/// Encode an RGB8 buffer as a PNG image, appending it to `output`.
pub fn write_png(output: &mut Vec<u8>, width: u32, height: u32, pixels: &[u8]) -> (result: Result<(), PngEncodingError>)
    requires
        width * height * 3 <= usize::MAX,
    ensures
        result is Ok <==> png_rgb8_encodable(width, height, pixels@.len() as int),
        result is Ok ==> final(output)@ == old(output)@ + png_rgb8_file(width, height, pixels@),
        !(width > 0 && height > 0) ==> result matches Err(PngEncodingError::Format),
        width > 0 && height > 0 && pixels@.len() != width * height * 3 ==> result matches Err(PngEncodingError::Parameter),
        final(output)@.subrange(0, old(output)@.len() as int) == old(output)@,
{
    encode_rgb8(output, width, height, pixels)
}

} // verus!
