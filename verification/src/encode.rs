//! Encoding the annotated frames for the output boundary: raster
//! formats behind trusted wrappers, base64, and the data-URL framing.

use vstd::prelude::*;
use crate::image_data::{image_wf, Image, DIM_LIMIT};
use crate::textutil::{string_new, string_push_str};

verus! {

/// Loading or encoding failed in an outside codec; the payload is the
/// codec's own description.
#[derive(Debug)]
pub enum LoadError {
    Image(String),
    Model(String),
}

/// The raster container a frame is serialized into.
#[derive(Clone, Copy, Debug, PartialEq, Eq, Structural)]
pub enum EncodeFormat {
    Bmp,
    WebP,
}

/// What `image::DynamicImage::write_to` produces for an RGB image of
/// the given pixels and size in the chosen container; a function of
/// these arguments alone.
pub uninterp spec fn encoded_image_bytes(pixels: Seq<u8>, w: int, h: int, bmp: bool) -> Seq<u8>;

/// What `rbase64::encode` returns: standard base64 with `=` padding,
/// four output characters for every three input bytes.
pub uninterp spec fn b64_of(bytes: Seq<u8>) -> Seq<char>;

/// Relies on `rbase64::encode`: the base64 text of the bytes, of the
/// padded length `4 * ceil(n / 3)` its code computes.
#[verifier::external_body]
fn base64_encode(data: &Vec<u8>) -> (r: String)
    ensures
        r@ == b64_of(data@),
        r@.len() == 4 * ((data@.len() + 2) / 3),
{
    rbase64::encode(data)
}

/// Relies on `image::DynamicImage::write_to` with `ImageFormat::Bmp` or
/// `ImageFormat::WebP`: the buffer holds the serialized image, a
/// function of the pixels, the size and the format.  Under the
/// dimension budget encoding succeeds: the buffer length matches the
/// dimensions, both containers accept eight-bit RGB, and the lossless
/// WebP encoder refuses only zero or over-16384-pixel extents.
#[verifier::external_body]
fn encode_image_raw(img: &Image, bmp: bool) -> (r: Result<Vec<u8>, String>)
    requires
        image_wf(*img),
        1 <= img.width <= DIM_LIMIT,
        1 <= img.height <= DIM_LIMIT,
    ensures
        r is Ok,
        r->Ok_0@ == encoded_image_bytes(img.data@, img.width as int, img.height as int, bmp),
{
    let buf = match image::RgbImage::from_raw(img.width, img.height, img.data.clone()) {
        Some(b) => b,
        None => return Err("buffer length does not match dimensions".to_owned()),
    };
    let dynimg = image::DynamicImage::ImageRgb8(buf);
    let fmt = if bmp { image::ImageFormat::Bmp } else { image::ImageFormat::WebP };
    let mut out: Vec<u8> = Vec::new();
    match dynimg.write_to(std::io::Cursor::new(&mut out), fmt) {
        Ok(()) => Ok(out),
        Err(e) => Err(format!("{}", e)),
    }
}

/// Serializes an image into the chosen container.  Inside the
/// dimension budget the codec always succeeds; the error arm only
/// carries a codec failure through, and never fires here.
pub fn convert_to_bytes(img: &Image, format: EncodeFormat) -> (r: Result<Vec<u8>, LoadError>)
    requires
        image_wf(*img),
        1 <= img.width <= DIM_LIMIT,
        1 <= img.height <= DIM_LIMIT,
    ensures
        r is Ok,
        r->Ok_0@ == encoded_image_bytes(
            img.data@,
            img.width as int,
            img.height as int,
            format is Bmp,
        ),
{
    match encode_image_raw(img, matches!(format, EncodeFormat::Bmp)) {
        Ok(bytes) => Ok(bytes),
        Err(msg) => Err(LoadError::Image(msg)),
    }
}

/// The data-URL text of a byte payload.
pub open spec fn data_url_chars(bytes: Seq<u8>) -> Seq<char> {
    "data:image/png;base64,"@ + b64_of(bytes)
}

/// Frames a byte payload as the data URL the display boundary expects:
/// the fixed prefix followed by the payload's base64 text.
pub fn bytes_to_data_url(bytes: &Vec<u8>) -> (r: String)
    ensures
        r@ == data_url_chars(bytes@),
{
    let mut s = string_new();
    string_push_str(&mut s, "data:image/png;base64,");
    let enc = base64_encode(bytes);
    string_push_str(&mut s, enc.as_str());
    s
}

/// Serializes an image as WebP and frames it as a data URL.  Inside
/// the dimension budget this always succeeds.
pub fn image_to_base64(img: &Image) -> (r: Result<String, LoadError>)
    requires
        image_wf(*img),
        1 <= img.width <= DIM_LIMIT,
        1 <= img.height <= DIM_LIMIT,
    ensures
        r is Ok,
        r->Ok_0@ == data_url_chars(
            encoded_image_bytes(img.data@, img.width as int, img.height as int, false),
        ),
{
    match convert_to_bytes(img, EncodeFormat::WebP) {
        Ok(bytes) => Ok(bytes_to_data_url(&bytes)),
        Err(e) => Err(e),
    }
}

} // verus!
