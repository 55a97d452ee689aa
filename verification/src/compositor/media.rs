//! Renderable media handed to a presentation backend: either a single
//! static frame or an ordered sequence of animation frames.

use vstd::prelude::*;

use crate::frame::Frame;

verus! {

/// Media ready to be shown: one static frame, or the frames of a
/// looping animation.
pub enum Media {
    Static(Frame),
    Animated(Vec<Frame>),
}

} // verus!
