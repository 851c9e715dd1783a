//! Encoding the canvas to PNG bytes, and decoding such bytes back.

use vstd::prelude::*;

use crate::buffer::PixelBuffer;

verus! {

/// The image crate's error type, declared so the trusted wrappers can return
/// it; verified code maps it to the library's own error.
#[verifier::external_type_specification]
#[verifier::external_body]
pub struct ExImageError(image::ImageError);

/// The PNG encoding of a width x height 8-bit RGB raster with the given
/// channel bytes: what the PNG encoder of the image crate produces for it, a
/// function of the raster alone.
pub uninterp spec fn png_encoding(width: u32, height: u32, data: Seq<u8>) -> Seq<u8>;

/// The canvas could not be encoded or decoded; the PNG codec refuses, for
/// one, a raster with a zero dimension.
#[derive(Debug)]
pub struct CodecError;

/// Relies on image::RgbImage::write_to with the PNG format: writing into an
/// in-memory cursor raises no I/O error, and for a correct-length 8-bit RGB
/// raster the PNG encoder fails exactly when a dimension is zero; otherwise
/// it fills the buffer with the encoding of this raster, which is
/// deterministic in the raster (the encoder reads nothing else).
#[verifier::external_body]
fn png_encode_raw(width: u32, height: u32, data: &Vec<u8>) -> (r: Result<
    Vec<u8>,
    image::ImageError,
>)
    requires
        data@.len() == 3 * (width as int) * (height as int),
    ensures
        r matches Ok(b) ==> b@ == png_encoding(width, height, data@),
        1 <= width && 1 <= height ==> r is Ok,
        width == 0 || height == 0 ==> r is Err,
{
    let img: image::RgbImage = image::RgbImage::from_raw(width, height, data.clone()).unwrap();
    let mut bytes: Vec<u8> = Vec::new();
    match img.write_to(&mut std::io::Cursor::new(&mut bytes), image::ImageFormat::Png) {
        Ok(()) => Ok(bytes),
        Err(e) => Err(e),
    }
}

/// Whenever `bytes` is the PNG encoding of a raster, `r` is that raster.
pub open spec fn decodes_encoded(bytes: Seq<u8>, r: Result<
    (u32, u32, Vec<u8>),
    image::ImageError,
>) -> bool {
    forall|w: u32, h: u32, d: Seq<u8>|
        bytes == #[trigger] png_encoding(w, h, d) && d.len() == 3 * (w as int) * (h as int)
            ==> (r matches Ok(t) && t.0 == w && t.1 == h && t.2@ == d)
}

/// Relies on image::io::Reader, with its allocation limits disabled, and
/// DynamicImage::to_rgb8: PNG is a lossless format, so bytes produced by the
/// PNG encoder for an 8-bit RGB raster decode to that raster, dimension for
/// dimension and byte for byte.
#[verifier::external_body]
fn png_decode_raw(bytes: &Vec<u8>) -> (r: Result<(u32, u32, Vec<u8>), image::ImageError>)
    ensures
        decodes_encoded(bytes@, r),
{
    let mut reader = image::io::Reader::new(std::io::Cursor::new(bytes.as_slice()));
    reader.no_limits();
    let guessed = match reader.with_guessed_format() {
        Ok(g) => g,
        Err(e) => return Err(image::ImageError::IoError(e)),
    };
    match guessed.decode() {
        Ok(img) => {
            let rgb = img.to_rgb8();
            Ok((rgb.width(), rgb.height(), rgb.into_raw()))
        },
        Err(e) => Err(e),
    }
}

/// The canvas as PNG bytes. Encoding succeeds exactly on a positive canvas:
/// the PNG format has no zero-dimension images.
pub fn encode_png(img: &PixelBuffer) -> (r: Result<Vec<u8>, CodecError>)
    requires
        img.wf(),
    ensures
        r matches Ok(b) ==> b@ == png_encoding(img.width, img.height, img.data@),
        r is Ok <==> 1 <= img.width && 1 <= img.height,
{
    match png_encode_raw(img.width, img.height, &img.data) {
        Ok(b) => Ok(b),
        Err(_) => Err(CodecError),
    }
}

/// A canvas decoded from PNG bytes. Bytes that the PNG encoder produced for
/// a raster decode to exactly that raster.
pub fn decode_png(bytes: &Vec<u8>) -> (r: Result<PixelBuffer, CodecError>)
    ensures
        forall|w: u32, h: u32, d: Seq<u8>|
            bytes@ == #[trigger] png_encoding(w, h, d) && d.len() == 3 * (w as int) * (h as int)
                ==> (r matches Ok(p) && p.width == w && p.height == h && p.data@ == d
                    && p.wf()),
{
    match png_decode_raw(bytes) {
        Ok((w, h, d)) => Ok(PixelBuffer { width: w, height: h, data: d }),
        Err(_) => Err(CodecError),
    }
}

/// Encode the canvas to PNG and decode the bytes straight back: a positive
/// canvas always comes back, and what comes back is the original, dimension
/// for dimension and pixel for pixel.
pub fn png_round_trip(img: &PixelBuffer) -> (r: Option<PixelBuffer>)
    requires
        img.wf(),
    ensures
        r matches Some(p) ==> p.width == img.width && p.height == img.height && p.data@
            == img.data@,
        1 <= img.width && 1 <= img.height ==> r is Some,
{
    match encode_png(img) {
        Ok(bytes) => match decode_png(&bytes) {
            Ok(p) => Some(p),
            Err(_) => None,
        },
        Err(_) => None,
    }
}

} // verus!
