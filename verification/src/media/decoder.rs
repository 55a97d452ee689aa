//! Sniffing the format of raw media bytes and dispatching them to the
//! decoder able to handle them.

use vstd::prelude::*;

use crate::media::decoded::DecodedMedia;
use crate::media::image::basic_decoder::{basic_decode_post, BasicDecoder};
use crate::media::image::gif_decoder::{gif_decode_post, GifDecoder};

verus! {

/// A media format recognisable from the first bytes of a payload.
#[derive(Debug, Clone, Copy, PartialEq, Eq, Structural)]
pub enum MediaFormat {
    Png,
    Gif,
    Jpeg,
    Webp,
    Mp4,
    Unknown,
}

/// The bytes begin with the PNG signature.
pub open spec fn is_png(b: Seq<u8>) -> bool {
    &&& b.len() >= 8
    &&& b[0] == 0x89u8
    &&& b[1] == 0x50u8
    &&& b[2] == 0x4eu8
    &&& b[3] == 0x47u8
    &&& b[4] == 0x0du8
    &&& b[5] == 0x0au8
    &&& b[6] == 0x1au8
    &&& b[7] == 0x0au8
}

/// The bytes begin with a JPEG start-of-image marker.
pub open spec fn is_jpeg(b: Seq<u8>) -> bool {
    &&& b.len() >= 3
    &&& b[0] == 0xffu8
    &&& b[1] == 0xd8u8
    &&& b[2] == 0xffu8
}

/// The bytes begin with a GIF87a or GIF89a header.
pub open spec fn is_gif(b: Seq<u8>) -> bool {
    &&& b.len() >= 6
    &&& b[0] == 0x47u8
    &&& b[1] == 0x49u8
    &&& b[2] == 0x46u8
    &&& b[3] == 0x38u8
    &&& (b[4] == 0x37u8 || b[4] == 0x39u8)
    &&& b[5] == 0x61u8
}

/// The bytes carry an MP4 `ftyp` box marker.
pub open spec fn is_mp4(b: Seq<u8>) -> bool {
    &&& b.len() > 8
    &&& b[4] == 0x66u8
    &&& b[5] == 0x74u8
    &&& b[6] == 0x79u8
    &&& b[7] == 0x70u8
}

/// The format the first bytes of a payload announce, in the order the
/// signatures are tried: PNG, JPEG, GIF, MP4, else unknown.
pub open spec fn spec_sniff(b: Seq<u8>) -> MediaFormat {
    if is_png(b) {
        MediaFormat::Png
    } else if is_jpeg(b) {
        MediaFormat::Jpeg
    } else if is_gif(b) {
        MediaFormat::Gif
    } else if is_mp4(b) {
        MediaFormat::Mp4
    } else {
        MediaFormat::Unknown
    }
}

/// Sniff the media format from the first bytes of the payload.
pub fn sniff_format(bytes: &[u8]) -> (f: MediaFormat)
    ensures
        f == spec_sniff(bytes@),
{
    let n: usize = bytes.len();
    if n >= 8 && bytes[0] == 0x89 && bytes[1] == 0x50 && bytes[2] == 0x4e && bytes[3] == 0x47
        && bytes[4] == 0x0d && bytes[5] == 0x0a && bytes[6] == 0x1a && bytes[7] == 0x0a {
        return MediaFormat::Png;
    }
    if n >= 3 && bytes[0] == 0xff && bytes[1] == 0xd8 && bytes[2] == 0xff {
        return MediaFormat::Jpeg;
    }
    if n >= 6 && bytes[0] == 0x47 && bytes[1] == 0x49 && bytes[2] == 0x46 && bytes[3] == 0x38 && (
    bytes[4] == 0x37 || bytes[4] == 0x39) && bytes[5] == 0x61 {
        return MediaFormat::Gif;
    }
    if n > 8 && bytes[4] == 0x66 && bytes[5] == 0x74 && bytes[6] == 0x79 && bytes[7] == 0x70 {
        return MediaFormat::Mp4;
    }
    MediaFormat::Unknown
}

/// An attempt to decode bytes into a media object; a decoder returns
/// `None` when it cannot handle the data.
pub trait MediaFormatDecoder {
    /// Attempt to decode the bytes into a media object.
    fn decode(bytes: &[u8]) -> Option<DecodedMedia>;
}

/// Why media bytes could not be turned into a renderable overlay.
#[derive(Debug, Clone, Copy, PartialEq, Eq, Structural)]
pub enum DecodeError {
    /// The bytes could not be decoded by any supported decoder.
    InvalidData,
    /// The bytes announce a media kind the renderer does not support
    /// (streamed video).
    UnsupportedMedia,
}

/// Dispatches raw bytes to the decoder their sniffed format calls for.
pub struct MediaDecoder {}

impl MediaDecoder {
    /// Try to decode raw bytes into media: single-frame formats and
    /// unknown payloads go to the basic decoder, GIF to the animation
    /// decoder; video (MP4) is surfaced as the explicit `Video` tag,
    /// which every consumer rejects as unsupported media.
    pub fn decode(bytes: &[u8]) -> (r: Option<DecodedMedia>)
        ensures
            ({
                match spec_sniff(bytes@) {
                    MediaFormat::Gif => gif_decode_post(bytes@, r),
                    MediaFormat::Mp4 => r == Some(DecodedMedia::Video),
                    _ => basic_decode_post(bytes@, r),
                }
            }),
    {
        match sniff_format(bytes) {
            MediaFormat::Png | MediaFormat::Jpeg | MediaFormat::Webp => BasicDecoder::decode(bytes),
            MediaFormat::Gif => GifDecoder::decode(bytes),
            MediaFormat::Mp4 => Some(DecodedMedia::Video),
            MediaFormat::Unknown => BasicDecoder::decode(bytes),
        }
    }
}

} // verus!
