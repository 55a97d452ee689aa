//! Overlay descriptors: the self-contained records a sender broadcasts
//! to describe what should be composited onto the splash screen.

use vstd::prelude::*;

verus! {

/// Media that can be decoded or rasterized and composited onto a
/// canvas. Offsets are measured from the canvas's top-left corner and
/// may be negative, so content may be partly cropped away.
pub enum Overlay {
    /// UTF-8 text, rasterized at a fixed size and colour.
    Text {
        /// Text content to render.
        text: String,
        /// Font size in logical pixels.
        size: u32,
        /// RGBA colour, one byte per channel.
        color: [u8; 4],
        /// Horizontal offset from the left edge.
        offset_left: i32,
        /// Vertical offset from the top edge.
        offset_top: i32,
        /// Paint-order key: 0 is the back, higher is in front.
        z_index: u32,
    },
    /// Raw encoded single-frame image data (PNG, JPEG, WebP, ...).
    Image {
        /// Raw encoded image bytes.
        bytes: Vec<u8>,
        /// Horizontal offset from the left edge.
        offset_left: i32,
        /// Vertical offset from the top edge.
        offset_top: i32,
        /// Paint-order key: 0 is the back, higher is in front.
        z_index: u32,
    },
    /// Raw encoded animated image data (GIF).
    AnimatedImage {
        /// Raw encoded image bytes.
        bytes: Vec<u8>,
        /// Horizontal offset from the left edge.
        offset_left: i32,
        /// Vertical offset from the top edge.
        offset_top: i32,
        /// Paint-order key: 0 is the back, higher is in front.
        z_index: u32,
    },
}

/// Global display parameters applied to a batch of overlays.
pub struct DisplayOptions {
    /// Duration in milliseconds the overlay batch should remain
    /// visible; consumed by the presentation loop, not the compositor.
    pub timeout_ms: u32,
}

} // verus!
