//! Decoder for single-frame image formats (PNG, JPEG, WebP and the
//! other formats the `image` crate can sniff from raw bytes).

use vstd::prelude::*;

use crate::media::decoded::DecodedMedia;
use crate::media::decoder::MediaFormatDecoder;
use crate::media::frame::Frame;

verus! {

/// What the `image` crate decodes the given bytes to: `None` when they
/// are not a decodable single-frame image, else the width, height and
/// RGBA bytes of the decoded bitmap.
pub uninterp spec fn decoded_image(bytes: Seq<u8>) -> Option<(nat, nat, Seq<u8>)>;

/// Relies on image::ImageReader with the format guessed from the bytes,
/// and DynamicImage::to_rgba8: the result is a function of the bytes
/// alone, and an RGBA image buffer holds at least width*height*4 bytes.
#[verifier::external_body]
pub(crate) fn decode_rgba(bytes: &[u8]) -> (r: Option<(u32, u32, Vec<u8>)>)
    ensures
        r is Some <==> decoded_image(bytes@) is Some,
        r matches Some(t) ==> decoded_image(bytes@) == Some(
            ((t.0 as nat), (t.1 as nat), t.2@),
        ) && t.2@.len() >= t.0 * t.1 * 4,
{
    let reader = image::ImageReader::new(std::io::Cursor::new(bytes)).with_guessed_format().ok()?;
    let img = reader.decode().ok()?.to_rgba8();
    let (w, h) = img.dimensions();
    Some((w, h, img.into_raw()))
}

/// What a successful single-frame decode of `bytes` yields: one static
/// frame holding the decoded dimensions and exactly width*height*4
/// RGBA bytes, with no intrinsic timing.
pub open spec fn basic_decode_post(bytes: Seq<u8>, r: Option<DecodedMedia>) -> bool {
    match r {
        Option::None => decoded_image(bytes) is None,
        Option::Some(m) => match m {
            DecodedMedia::Static(f) => decoded_image(bytes) matches Some(d) && {
                &&& f.width as nat == d.0
                &&& f.height as nat == d.1
                &&& f.rgba@ == d.2.take((d.0 * d.1 * 4) as int)
                &&& f.rgba@.len() == d.0 * d.1 * 4
                &&& f.delay_ms == 0
            },
            _ => false,
        },
    }
}

/// Decoder for single-frame image formats.
pub struct BasicDecoder;

impl BasicDecoder {
    /// Decode raw bytes into one static frame; `None` when the bytes
    /// are not a decodable image.
    pub fn decode(bytes: &[u8]) -> (r: Option<DecodedMedia>)
        ensures
            basic_decode_post(bytes@, r),
    {
        match decode_rgba(bytes) {
            None => None,
            Some((w, h, mut rgba)) => {
                let _len: usize = rgba.len();
                let n: usize = (w as usize) * (h as usize) * 4;
                rgba.truncate(n);
                Some(DecodedMedia::Static(Frame::new(w, h, rgba, 0)))
            },
        }
    }
}

impl MediaFormatDecoder for BasicDecoder {
    fn decode(bytes: &[u8]) -> Option<DecodedMedia> {
        BasicDecoder::decode(bytes)
    }
}

} // verus!
