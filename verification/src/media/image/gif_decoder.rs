//! Decoder for animated GIF bytes: an ordered, timed frame sequence.

use vstd::prelude::*;

use crate::media::decoded::DecodedMedia;
use crate::media::decoder::MediaFormatDecoder;
use crate::media::frame::Frame;

verus! {

/// What the `image` crate decodes the given GIF bytes to: `None` when
/// they are not a decodable GIF, else for each frame in order its
/// width, height, RGBA bytes, and delay as a millisecond fraction
/// (numerator, denominator).
pub uninterp spec fn gif_frames(bytes: Seq<u8>) -> Option<Seq<(nat, nat, Seq<u8>, nat, nat)>>;

/// Relies on image::codecs::gif::GifDecoder, AnimationDecoder::into_frames
/// and Frames::collect_frames: the result is a function of the bytes
/// alone; each frame buffer is an RGBA image of at least width*height*4
/// bytes; Delay stores a ratio whose denominator is never zero.
#[verifier::external_body]
pub(crate) fn decode_gif(bytes: &[u8]) -> (r: Option<Vec<(u32, u32, Vec<u8>, u32, u32)>>)
    ensures
        r is Some <==> gif_frames(bytes@) is Some,
        r matches Some(v) ==> {
            let s = gif_frames(bytes@)->Some_0;
            &&& v@.len() == s.len()
            &&& forall|i: int|
                0 <= i < v@.len() ==> {
                    let t = #[trigger] v@[i];
                    &&& s[i] == ((t.0 as nat), (t.1 as nat), t.2@, (t.3 as nat), (t.4 as nat))
                    &&& t.2@.len() >= t.0 * t.1 * 4
                    &&& t.4 > 0
                }
        },
{
    let decoder = image::codecs::gif::GifDecoder::new(std::io::Cursor::new(bytes)).ok()?;
    let frames = image::AnimationDecoder::into_frames(decoder).collect_frames().ok()?;
    Some(frames.into_iter().map(|frame| {
        let (numerator, denominator) = frame.delay().numer_denom_ms();
        let buffer = frame.into_buffer();
        let (w, h) = buffer.dimensions();
        (w, h, buffer.into_raw(), numerator, denominator)
    }).collect())
}

/// What a GIF decode of `bytes` yields: a non-empty ordered sequence,
/// one frame per decoded frame, each holding the decoded dimensions
/// and exactly width*height*4 RGBA bytes, with the delay fraction
/// resolved to milliseconds by integer division; `None` when the bytes
/// are not a decodable GIF or decode to no frames at all.
pub open spec fn gif_decode_post(bytes: Seq<u8>, r: Option<DecodedMedia>) -> bool {
    match r {
        Option::None => gif_frames(bytes) is None || gif_frames(bytes)->Some_0.len() == 0,
        Option::Some(m) => match m {
            DecodedMedia::Animated(fs) => gif_frames(bytes) is Some && {
                let s = gif_frames(bytes)->Some_0;
                &&& s.len() > 0
                &&& fs@.len() == s.len()
                &&& forall|i: int|
                    0 <= i < s.len() ==> {
                        let f = #[trigger] fs@[i];
                        &&& f.width as nat == s[i].0
                        &&& f.height as nat == s[i].1
                        &&& f.rgba@ == s[i].2.take((s[i].0 * s[i].1 * 4) as int)
                        &&& f.rgba@.len() == s[i].0 * s[i].1 * 4
                        &&& f.delay_ms as nat == s[i].3 / s[i].4
                    }
            },
            _ => false,
        },
    }
}

/// Decoder for animated GIF bytes.
pub struct GifDecoder;

impl GifDecoder {
    /// Decode raw GIF bytes into an ordered, non-empty frame sequence;
    /// `None` when the bytes are not a decodable GIF or hold no frames.
    pub fn decode(bytes: &[u8]) -> (r: Option<DecodedMedia>)
        ensures
            gif_decode_post(bytes@, r),
    {
        let decoded = decode_gif(bytes);
        match decoded {
            None => None,
            Some(mut v) => {
                if v.len() == 0 {
                    return None;
                }
                let ghost s = gif_frames(bytes@)->Some_0;
                let ghost origv = v@;
                let mut frames: Vec<Frame> = Vec::new();
                let n: usize = v.len();
                let mut i: usize = 0;
                while i < n
                    invariant
                        n == origv.len(),
                        origv.len() == s.len(),
                        i <= n,
                        i + v@.len() == n,
                        v@ == origv.skip(i as int),
                        forall|k: int|
                            0 <= k < origv.len() ==> {
                                let t = #[trigger] origv[k];
                                &&& s[k] == (
                                    (t.0 as nat),
                                    (t.1 as nat),
                                    t.2@,
                                    (t.3 as nat),
                                    (t.4 as nat),
                                )
                                &&& t.2@.len() >= t.0 * t.1 * 4
                                &&& t.4 > 0
                            },
                        frames@.len() == i,
                        forall|k: int|
                            0 <= k < i ==> {
                                let f = #[trigger] frames@[k];
                                &&& f.width as nat == s[k].0
                                &&& f.height as nat == s[k].1
                                &&& f.rgba@ == s[k].2.take((s[k].0 * s[k].1 * 4) as int)
                                &&& f.rgba@.len() == s[k].0 * s[k].1 * 4
                                &&& f.delay_ms as nat == s[k].3 / s[k].4
                            },
                    decreases n - i,
                {
                    let t = v.remove(0);
                    proof {
                        assert(origv.skip(i as int)[0] == origv[i as int]);
                        assert(origv.skip(i as int).remove(0) =~= origv.skip(i + 1));
                        assert(t == origv[i as int]);
                    }
                    let (w, h, mut rgba, numerator, denominator) = t;
                    let _len: usize = rgba.len();
                    let m: usize = (w as usize) * (h as usize) * 4;
                    rgba.truncate(m);
                    let delay_ms: u32 = numerator / denominator;
                    frames.push(Frame::new(w, h, rgba, delay_ms));
                    i = i + 1;
                }
                Some(DecodedMedia::Animated(frames))
            },
        }
    }
}

impl MediaFormatDecoder for GifDecoder {
    fn decode(bytes: &[u8]) -> Option<DecodedMedia> {
        GifDecoder::decode(bytes)
    }
}

} // verus!
