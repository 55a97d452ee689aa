//! A single decoded pixel frame as produced by a media decoder.

use vstd::prelude::*;

verus! {

/// A decoded RGBA8 pixel frame with an intrinsic display duration.
#[derive(Clone)]
pub struct Frame {
    /// Width in pixels.
    pub width: u32,
    /// Height in pixels.
    pub height: u32,
    /// RGBA bytes, four per pixel.
    pub rgba: Vec<u8>,
    /// Frame duration in milliseconds; 0 means "static".
    pub delay_ms: u32,
}

impl Frame {
    /// A frame holding the given pixel data.
    pub fn new(width: u32, height: u32, rgba: Vec<u8>, delay_ms: u32) -> (f: Frame)
        ensures
            f.width == width,
            f.height == height,
            f.rgba@ == rgba@,
            f.delay_ms == delay_ms,
    {
        Frame { width, height, rgba, delay_ms }
    }
}

} // verus!
