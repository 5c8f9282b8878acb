use vstd::prelude::*;
use crate::NinePatchError;

verus! {

/// What the raster codec decodes the bytes to: a width, a height and a
/// row-major RGBA buffer, or nothing when the bytes are not a decodable
/// image. Decoding is a function of the bytes alone.
pub uninterp spec fn rgba_decoded(bytes: Seq<u8>) -> Option<(int, int, Seq<u8>)>;

/// The bytes of the raster container format for an RGBA buffer of the given
/// size: the encoding is a function of the dimensions and the pixel bytes
/// alone.
pub uninterp spec fn png_bytes(width: int, height: int, data: Seq<u8>) -> Seq<u8>;

/// Relies on image::load_from_memory and DynamicImage::to_rgba8: decodes the
/// bytes into a width, a height and a row-major RGBA buffer of exactly four
/// bytes per pixel, or reports that the bytes are not a decodable image.
/// Both outcomes depend on the bytes alone, named here `rgba_decoded`.
#[verifier::external_body]
pub fn decode_rgba(bytes: &[u8]) -> (r: Option<(u32, u32, Vec<u8>)>)
    ensures
        r is Some <==> rgba_decoded(bytes@) is Some,
        r matches Some(t) ==> rgba_decoded(bytes@) == Some((t.0 as int, t.1 as int, t.2@)),
        r matches Some(t) ==> t.2@.len() == 4 * t.0 * t.1,
{
    match image::load_from_memory(bytes) {
        Ok(img) => {
            let rgba = img.to_rgba8();
            let (w, h) = rgba.dimensions();
            Some((w, h, rgba.into_raw()))
        },
        Err(_) => None,
    }
}

/// Relies on image::RgbaImage::from_raw and ImageBuffer::write_to with the
/// PNG format: encodes the RGBA buffer as PNG bytes, named here `png_bytes`
/// since the encoder's output depends on the dimensions and the pixel bytes
/// alone. Writing to an in-memory buffer, the encoder fails exactly when a
/// dimension is zero, and a PNG stream is never empty (it starts with the
/// eight signature bytes).
#[verifier::external_body]
pub fn encode_png(width: u32, height: u32, data: Vec<u8>) -> (r: Result<Vec<u8>, NinePatchError>)
    requires
        data@.len() == 4 * width * height,
    ensures
        width > 0 && height > 0 ==> r is Ok,
        width == 0 || height == 0 ==> r is Err,
        r matches Err(e) ==> e == NinePatchError::InvalidFormat,
        r matches Ok(bytes) ==> bytes@ == png_bytes(width as int, height as int, data@)
            && bytes@.len() > 0,
{
    match image::RgbaImage::from_raw(width, height, data) {
        Some(img) => {
            let mut cursor = std::io::Cursor::new(Vec::new());
            match img.write_to(&mut cursor, image::ImageFormat::Png) {
                Ok(()) => Ok(cursor.into_inner()),
                Err(_) => Err(NinePatchError::InvalidFormat),
            }
        },
        None => Err(NinePatchError::InvalidFormat),
    }
}

} // verus!
