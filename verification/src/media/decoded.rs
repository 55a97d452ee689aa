//! The result of decoding raw media bytes: a static frame, an animated
//! frame sequence, or a video stream.

use vstd::prelude::*;

use crate::media::frame::Frame;

verus! {

/// Decoded media: one static frame, an ordered animation sequence, or
/// streamed video, which this renderer does not support.
pub enum DecodedMedia {
    Static(Frame),
    Animated(Vec<Frame>),
    /// Streamed video. No decoder produces this tag: video input is
    /// rejected as unsupported media at decode time.
    Video,
}

/// A stream of decoded video frames, for callers that supply their own
/// video decoding.
pub trait VideoStream {
    /// The next frame, or `None` when the stream is finished.
    fn next_frame(&mut self) -> Option<Frame>;

    /// The number of frames, if known.
    fn frame_count(&self) -> Option<usize>;
}

} // verus!
