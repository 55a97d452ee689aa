//! The uniform capability set of every overlay: a paint-order key, a
//! draw operation, and a query for the time until the overlay needs to
//! be redrawn; together with the mathematical model those contracts
//! speak of.

use vstd::prelude::*;

use crate::frame::{blit_bytes, Frame, FrameView};
use crate::overlay::animated::AnimatedOverlay;
use crate::overlay::image::ImageOverlay;
use crate::overlay::text::TextOverlay;

verus! {

/// Mathematical model of an overlay: its paint-order key, whether it is
/// animated, the anchor timestamp of its animation, and the frames it
/// owns (exactly one for static overlays).
#[verifier::ext_equal]
pub ghost struct OverlayModel {
    pub z: int,
    pub animated: bool,
    pub start_ms: int,
    pub frames: Seq<FrameView>,
}

/// `x - y`, saturating at zero.
pub open spec fn sat_sub(x: int, y: int) -> int {
    if x >= y {
        x - y
    } else {
        0
    }
}

/// Sum of the display durations of a frame sequence: the period of the
/// animation cycle they form.
pub open spec fn total_delay(frames: Seq<FrameView>) -> int
    decreases frames.len(),
{
    if frames.len() == 0 {
        0
    } else {
        frames[0].delay_ms + total_delay(frames.skip(1))
    }
}

/// Index of the frame whose span contains position `pos` of the
/// animation cycle: delays are accumulated from the front until `pos`
/// falls inside a frame's span. Past the last span, the last frame.
pub open spec fn cycle_index(frames: Seq<FrameView>, pos: int) -> int
    decreases frames.len(),
{
    if frames.len() <= 1 {
        0
    } else if pos < frames[0].delay_ms {
        0
    } else {
        1 + cycle_index(frames.skip(1), pos - frames[0].delay_ms)
    }
}

/// Time remaining from position `pos` of the animation cycle to the end
/// of the span of the frame active at `pos`.
pub open spec fn cycle_remaining(frames: Seq<FrameView>, pos: int) -> int
    decreases frames.len(),
{
    if frames.len() == 0 {
        0
    } else if pos < frames[0].delay_ms {
        frames[0].delay_ms - pos
    } else if frames.len() == 1 {
        frames[0].delay_ms
    } else {
        cycle_remaining(frames.skip(1), pos - frames[0].delay_ms)
    }
}

impl OverlayModel {
    /// Every frame is well formed; a static overlay owns exactly one
    /// frame and has no animation anchor; the cycle period fits the
    /// arithmetic the renderer performs.
    pub open spec fn wf(self) -> bool {
        &&& forall|i: int| 0 <= i < self.frames.len() ==> (#[trigger] self.frames[i]).wf()
        &&& (!self.animated ==> self.frames.len() == 1 && self.start_ms == 0)
        &&& 0 <= self.z <= u32::MAX
        &&& 0 <= self.start_ms <= u128::MAX
        &&& total_delay(self.frames) <= u128::MAX
    }

    /// Position inside the repeating animation cycle at time `t`.
    pub open spec fn cycle_pos(self, t: int) -> int {
        sat_sub(t, self.start_ms) % total_delay(self.frames)
    }

    /// Index of the frame this overlay displays at time `t`: frame 0 for
    /// static overlays and for animations without a positive period,
    /// else the frame whose span contains the cycle position.
    pub open spec fn active_index(self, t: int) -> int {
        if !self.animated {
            0
        } else if self.frames.len() == 0 {
            0
        } else if total_delay(self.frames) == 0 {
            0
        } else {
            cycle_index(self.frames, self.cycle_pos(t))
        }
    }

    /// The frame this overlay displays at time `t`.
    pub open spec fn active_frame(self, t: int) -> FrameView {
        self.frames[self.active_index(t)]
    }

    /// The canvas after this overlay has been drawn onto it at time `t`:
    /// its active frame is composited at the frame's stored offset; an
    /// animated overlay without frames draws nothing.
    pub open spec fn draw_on(self, canvas: FrameView, t: int) -> FrameView {
        if self.animated && self.frames.len() == 0 {
            canvas
        } else {
            let f = self.frames[self.active_index(t)];
            FrameView {
                buffer: blit_bytes(
                    canvas.buffer,
                    canvas.width,
                    f.left,
                    f.top,
                    f.width,
                    f.height,
                    f.buffer,
                ),
                ..canvas
            }
        }
    }

    /// How long after time `t` this overlay next needs a redraw: `None`
    /// for static overlays and for animations without a positive period,
    /// else the time left on the active frame's span.
    pub open spec fn next_change(self, t: int) -> Option<int> {
        if !self.animated {
            None
        } else if self.frames.len() == 0 {
            None
        } else if total_delay(self.frames) == 0 {
            None
        } else {
            Some(cycle_remaining(self.frames, self.cycle_pos(t)))
        }
    }
}

/// The walk of the animation cycle always lands on a valid frame index.
pub proof fn lemma_cycle_index_in_range(frames: Seq<FrameView>, pos: int)
    requires
        frames.len() > 0,
    ensures
        0 <= cycle_index(frames, pos) < frames.len(),
    decreases frames.len(),
{
    if frames.len() > 1 && !(pos < frames[0].delay_ms) {
        lemma_cycle_index_in_range(frames.skip(1), pos - frames[0].delay_ms);
    }
}

/// The cycle period of a frame sequence splits at any cut point `k`.
pub proof fn lemma_total_delay_split(frames: Seq<FrameView>, k: int)
    requires
        0 <= k <= frames.len(),
    ensures
        total_delay(frames) == total_delay(frames.take(k)) + total_delay(frames.skip(k)),
    decreases k,
{
    if k == 0 {
        assert(frames.take(0) =~= Seq::<FrameView>::empty());
        assert(frames.skip(0) =~= frames);
    } else {
        lemma_total_delay_split(frames.skip(1), k - 1);
        assert(frames.take(k).skip(1) =~= frames.skip(1).take(k - 1));
        assert(frames.skip(1).skip(k - 1) =~= frames.skip(k));
        assert(frames.take(k)[0] == frames[0]);
        assert(total_delay(frames.take(k)) == frames[0].delay_ms + total_delay(
            frames.skip(1).take(k - 1),
        ));
    }
}

/// Every span of the cycle is nonnegative, so the period is too.
pub proof fn lemma_total_delay_nonneg(frames: Seq<FrameView>)
    requires
        forall|i: int| 0 <= i < frames.len() ==> (#[trigger] frames[i]).delay_ms >= 0,
    ensures
        total_delay(frames) >= 0,
    decreases frames.len(),
{
    if frames.len() > 0 {
        assert(frames[0].delay_ms >= 0);
        lemma_total_delay_nonneg(frames.skip(1));
    }
}

/// A cycle of `n` spans of at most `b` milliseconds each lasts at most
/// `n * b` milliseconds.
pub proof fn lemma_total_delay_bounded(frames: Seq<FrameView>, b: int)
    requires
        0 <= b,
        forall|i: int| 0 <= i < frames.len() ==> 0 <= (#[trigger] frames[i]).delay_ms <= b,
    ensures
        0 <= total_delay(frames) <= frames.len() * b,
    decreases frames.len(),
{
    if frames.len() == 0 {
        assert(frames.len() * b == 0) by (nonlinear_arith)
            requires
                frames.len() == 0,
        ;
    } else {
        assert forall|i: int| 0 <= i < frames.skip(1).len() implies 0 <= (#[trigger] frames.skip(
            1,
        )[i]).delay_ms <= b by {
            assert(frames.skip(1)[i] == frames[i + 1]);
        }
        lemma_total_delay_bounded(frames.skip(1), b);
        assert(frames[0].delay_ms <= b);
        assert((frames.len() - 1) * b + b == frames.len() * b) by (nonlinear_arith);
    }
}

/// An overlay: a positioned, z-ordered visual element that can be
/// composited onto a canvas frame.
pub trait Overlay: Sized {
    /// The mathematical model this overlay's contracts speak of.
    spec fn model(&self) -> OverlayModel;

    /// Well-formedness: the model is well formed.
    spec fn inv(&self) -> bool;

    /// Paint-order key: 0 paints first (back), higher paints later (front).
    fn z_index(&self) -> (z: u32)
        ensures
            z as int == self.model().z,
    ;

    /// Composite this overlay's currently active frame onto `frame`.
    fn draw(&self, frame: &mut Frame, timestamp_ms: u128)
        requires
            old(frame).wf(),
            self.inv(),
        ensures
            final(frame).wf(),
            final(frame)@ == self.model().draw_on(old(frame)@, timestamp_ms as int),
    ;

    /// Time in milliseconds until this overlay wants the next frame:
    /// `None` when it never requests a redraw on its own.
    fn time_to_next_frame_ms(&self, timestamp_ms: u128) -> (r: Option<u128>)
        requires
            self.inv(),
        ensures
            match r {
                Some(d) => self.model().next_change(timestamp_ms as int) == Some(d as int),
                None => self.model().next_change(timestamp_ms as int) is None,
            },
    ;
}

/// The closed set of overlay variants the compositor can hold, with
/// `match`-based dispatch of the shared capability set.
pub enum AnyOverlay {
    Text(TextOverlay),
    Image(ImageOverlay),
    Animated(AnimatedOverlay),
}

impl Overlay for AnyOverlay {
    open spec fn model(&self) -> OverlayModel {
        match self {
            AnyOverlay::Text(o) => o.model(),
            AnyOverlay::Image(o) => o.model(),
            AnyOverlay::Animated(o) => o.model(),
        }
    }

    open spec fn inv(&self) -> bool {
        match self {
            AnyOverlay::Text(o) => o.inv(),
            AnyOverlay::Image(o) => o.inv(),
            AnyOverlay::Animated(o) => o.inv(),
        }
    }

    fn z_index(&self) -> u32 {
        match self {
            AnyOverlay::Text(o) => o.z_index(),
            AnyOverlay::Image(o) => o.z_index(),
            AnyOverlay::Animated(o) => o.z_index(),
        }
    }

    fn draw(&self, frame: &mut Frame, timestamp_ms: u128) {
        match self {
            AnyOverlay::Text(o) => o.draw(frame, timestamp_ms),
            AnyOverlay::Image(o) => o.draw(frame, timestamp_ms),
            AnyOverlay::Animated(o) => o.draw(frame, timestamp_ms),
        }
    }

    fn time_to_next_frame_ms(&self, timestamp_ms: u128) -> Option<u128> {
        match self {
            AnyOverlay::Text(o) => o.time_to_next_frame_ms(timestamp_ms),
            AnyOverlay::Image(o) => o.time_to_next_frame_ms(timestamp_ms),
            AnyOverlay::Animated(o) => o.time_to_next_frame_ms(timestamp_ms),
        }
    }
}

} // verus!
