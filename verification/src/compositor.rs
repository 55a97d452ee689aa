//! The composition engine: owns the canvas frame and the registered
//! overlays, establishes paint order, draws every overlay for a given
//! timestamp, and reports how long the render loop may wait before the
//! next redraw.

pub mod media;

use vstd::prelude::*;

use crate::frame::{pixel_in_region, zero_bytes, Frame, FrameView};
use crate::media::image::basic_decoder::decoded_image;
use crate::media::image::gif_decoder::gif_frames;
use crate::media::decoder::{spec_sniff, MediaFormat};
use crate::message::overlay::Overlay as OverlayDesc;
use crate::message::server::ServerMessageType;
use crate::overlay::animated::{frame_views, AnimatedOverlay};
use crate::overlay::image::ImageOverlay;
use crate::overlay::overlay::{AnyOverlay, Overlay, OverlayModel};
use crate::overlay::text::TextOverlay;

verus! {

/// All overlays of a sequence are well formed.
pub open spec fn overlays_wf(s: Seq<AnyOverlay>) -> bool {
    forall|i: int| 0 <= i < s.len() ==> (#[trigger] s[i]).inv()
}

/// `x` inserted into `s` after every element whose key is less than or
/// equal to `x`'s: the insertion step of a stable insertion sort by
/// ascending `z_index`.
pub open spec fn insert_sorted(x: AnyOverlay, s: Seq<AnyOverlay>) -> Seq<AnyOverlay>
    decreases s.len(),
{
    if s.len() == 0 {
        seq![x]
    } else if s[0].model().z <= x.model().z {
        seq![s[0]] + insert_sorted(x, s.skip(1))
    } else {
        seq![x] + s
    }
}

/// The stable sort of `s` by ascending `z_index`: overlays that share a
/// key keep their insertion order.
pub open spec fn sort_by_z(s: Seq<AnyOverlay>) -> Seq<AnyOverlay>
    decreases s.len(),
{
    if s.len() == 0 {
        Seq::empty()
    } else {
        insert_sorted(s.last(), sort_by_z(s.drop_last()))
    }
}

/// The keys of `s` are nondecreasing.
pub open spec fn sorted_by_z(s: Seq<AnyOverlay>) -> bool {
    forall|i: int, j: int| 0 <= i <= j < s.len() ==> s[i].model().z <= s[j].model().z
}

/// The canvas after every overlay of `s` has been drawn onto it in
/// order at time `t`.
pub open spec fn composite(s: Seq<AnyOverlay>, canvas: FrameView, t: int) -> FrameView
    decreases s.len(),
{
    if s.len() == 0 {
        canvas
    } else {
        composite(s.skip(1), s[0].model().draw_on(canvas, t), t)
    }
}

/// A canvas with every byte cleared to zero (fully transparent black).
pub open spec fn cleared(canvas: FrameView) -> FrameView {
    FrameView { buffer: zero_bytes(canvas.buffer.len()), ..canvas }
}

/// The earliest of all overlays' next-redraw times at time `t`; `None`
/// when every overlay is static.
pub open spec fn min_next(s: Seq<AnyOverlay>, t: int) -> Option<int>
    decreases s.len(),
{
    if s.len() == 0 {
        None
    } else {
        let rest = min_next(s.skip(1), t);
        match s[0].model().next_change(t) {
            None => rest,
            Some(d) => match rest {
                None => Some(d),
                Some(m) => Some(
                    if d <= m {
                        d
                    } else {
                        m
                    },
                ),
            },
        }
    }
}

/// Whether an executable wait time matches a modelled one.
pub open spec fn matches_wait(r: Option<u128>, m: Option<int>) -> bool {
    match r {
        Some(d) => m == Some(d as int),
        None => m is None,
    }
}

/// Drawing in order `s.push(x)` is drawing `s`, then drawing `x`.
pub proof fn lemma_composite_snoc(s: Seq<AnyOverlay>, x: AnyOverlay, canvas: FrameView, t: int)
    ensures
        composite(s.push(x), canvas, t) == x.model().draw_on(composite(s, canvas, t), t),
    decreases s.len(),
{
    if s.len() == 0 {
        assert(s.push(x).skip(1) =~= Seq::<AnyOverlay>::empty());
        assert(s.push(x)[0] == x);
        assert(composite(s.push(x), canvas, t) == composite(
            Seq::<AnyOverlay>::empty(),
            x.model().draw_on(canvas, t),
            t,
        ));
        assert(composite(Seq::<AnyOverlay>::empty(), x.model().draw_on(canvas, t), t) == x
            .model().draw_on(canvas, t));
    } else {
        assert(s.push(x).skip(1) =~= s.skip(1).push(x));
        assert(s.push(x)[0] == s[0]);
        lemma_composite_snoc(s.skip(1), x, s[0].model().draw_on(canvas, t), t);
        assert(composite(s.push(x), canvas, t) == composite(
            s.skip(1).push(x),
            s[0].model().draw_on(canvas, t),
            t,
        ));
    }
}

/// Inserting a well-formed overlay into a well-formed sequence yields a
/// well-formed sequence.
pub proof fn lemma_insert_sorted_wf(x: AnyOverlay, s: Seq<AnyOverlay>)
    requires
        x.inv(),
        overlays_wf(s),
    ensures
        overlays_wf(insert_sorted(x, s)),
        insert_sorted(x, s).len() == s.len() + 1,
    decreases s.len(),
{
    if s.len() == 0 {
    } else if s[0].model().z <= x.model().z {
        assert(overlays_wf(s.skip(1)));
        lemma_insert_sorted_wf(x, s.skip(1));
        let r = seq![s[0]] + insert_sorted(x, s.skip(1));
        assert forall|i: int| 0 <= i < r.len() implies (#[trigger] r[i]).inv() by {
            if i > 0 {
                assert(r[i] == insert_sorted(x, s.skip(1))[i - 1]);
            }
        }
    } else {
        let r = seq![x] + s;
        assert forall|i: int| 0 <= i < r.len() implies (#[trigger] r[i]).inv() by {
            if i > 0 {
                assert(r[i] == s[i - 1]);
            }
        }
    }
}

/// `insert_sorted` places `x` exactly at the first position whose key
/// exceeds `x`'s.
pub proof fn lemma_insert_sorted_at(x: AnyOverlay, s: Seq<AnyOverlay>, p: int)
    requires
        0 <= p <= s.len(),
        forall|j: int| 0 <= j < p ==> (#[trigger] s[j]).model().z <= x.model().z,
        p < s.len() ==> s[p].model().z > x.model().z,
    ensures
        insert_sorted(x, s) == s.take(p).push(x) + s.skip(p),
    decreases p,
{
    if p == 0 {
        if s.len() == 0 {
            assert(insert_sorted(x, s) =~= s.take(0).push(x) + s.skip(0));
        } else {
            assert(insert_sorted(x, s) == seq![x] + s);
            assert(seq![x] + s =~= s.take(0).push(x) + s.skip(0));
        }
    } else {
        assert(s[0].model().z <= x.model().z);
        lemma_insert_sorted_at(x, s.skip(1), p - 1);
        assert(s.skip(1).take(p - 1) =~= s.take(p).skip(1));
        assert(s.skip(1).skip(p - 1) =~= s.skip(p));
        assert(seq![s[0]] + (s.skip(1).take(p - 1).push(x) + s.skip(1).skip(p - 1)) =~= s.take(
            p,
        ).push(x) + s.skip(p));
    }
}

/// Inserting into a sorted sequence keeps it sorted, and the head of
/// the result is the inserted element or the old head.
pub proof fn lemma_insert_sorted_sorted(x: AnyOverlay, s: Seq<AnyOverlay>)
    requires
        sorted_by_z(s),
    ensures
        sorted_by_z(insert_sorted(x, s)),
        insert_sorted(x, s).len() == s.len() + 1,
        insert_sorted(x, s)[0] == x || (s.len() > 0 && insert_sorted(x, s)[0] == s[0]),
    decreases s.len(),
{
    if s.len() == 0 {
    } else if s[0].model().z <= x.model().z {
        assert(sorted_by_z(s.skip(1)));
        lemma_insert_sorted_sorted(x, s.skip(1));
        let tail = insert_sorted(x, s.skip(1));
        let r = seq![s[0]] + tail;
        assert forall|i: int, j: int| 0 <= i <= j < r.len() implies r[i].model().z
            <= r[j].model().z by {
            if i == 0 && j > 0 {
                assert(r[j] == tail[j - 1]);
                assert(tail[0].model().z <= tail[j - 1].model().z);
                if tail[0] == x {
                } else {
                    assert(tail[0] == s.skip(1)[0]);
                }
            } else if i > 0 {
                assert(r[i] == tail[i - 1] && r[j] == tail[j - 1]);
            }
        }
    } else {
        let r = seq![x] + s;
        assert forall|i: int, j: int| 0 <= i <= j < r.len() implies r[i].model().z
            <= r[j].model().z by {
            if i == 0 && j > 0 {
                assert(r[j] == s[j - 1]);
                assert(s[0].model().z <= s[j - 1].model().z);
            } else if i > 0 {
                assert(r[i] == s[i - 1] && r[j] == s[j - 1]);
            }
        }
    }
}

/// The stable sort produces a sequence with nondecreasing keys.
pub proof fn lemma_sort_by_z_sorted(s: Seq<AnyOverlay>)
    ensures
        sorted_by_z(sort_by_z(s)),
        sort_by_z(s).len() == s.len(),
    decreases s.len(),
{
    if s.len() > 0 {
        lemma_sort_by_z_sorted(s.drop_last());
        lemma_insert_sorted_sorted(s.last(), sort_by_z(s.drop_last()));
    }
}

/// Inserting an element whose key is at least every key of `s` appends
/// it at the end.
pub proof fn lemma_insert_sorted_ge(x: AnyOverlay, s: Seq<AnyOverlay>)
    requires
        forall|j: int| 0 <= j < s.len() ==> (#[trigger] s[j]).model().z <= x.model().z,
    ensures
        insert_sorted(x, s) == s.push(x),
    decreases s.len(),
{
    if s.len() == 0 {
        assert(insert_sorted(x, s) =~= s.push(x));
    } else {
        assert(s[0].model().z <= x.model().z);
        assert forall|j: int| 0 <= j < s.skip(1).len() implies (#[trigger] s.skip(1)[j]).model().z
            <= x.model().z by {
            assert(s.skip(1)[j] == s[j + 1]);
        }
        lemma_insert_sorted_ge(x, s.skip(1));
        assert(seq![s[0]] + s.skip(1).push(x) =~= s.push(x));
    }
}

/// Sorting a sequence that is already sorted leaves it unchanged.
pub proof fn lemma_sort_of_sorted(s: Seq<AnyOverlay>)
    requires
        sorted_by_z(s),
    ensures
        sort_by_z(s) == s,
    decreases s.len(),
{
    if s.len() > 0 {
        assert(sorted_by_z(s.drop_last()));
        lemma_sort_of_sorted(s.drop_last());
        assert forall|j: int| 0 <= j < s.drop_last().len() implies (#[trigger] s.drop_last()[
        j]).model().z <= s.last().model().z by {
            assert(s.drop_last()[j] == s[j]);
        }
        lemma_insert_sorted_ge(s.last(), s.drop_last());
        assert(s.drop_last().push(s.last()) =~= s);
    }
}

/// Sorting is idempotent: sorting an already established paint order
/// changes nothing.
pub proof fn lemma_sort_idempotent(s: Seq<AnyOverlay>)
    ensures
        sort_by_z(sort_by_z(s)) == sort_by_z(s),
{
    lemma_sort_by_z_sorted(s);
    lemma_sort_of_sorted(sort_by_z(s));
}

/// Rendering is deterministic: a first render establishes the paint
/// order `sort_by_z(s)`; rendering again with the overlay set unchanged
/// re-sorts that order, which changes nothing, so the same timestamp
/// yields byte-identical canvas output.
pub proof fn lemma_render_deterministic(s: Seq<AnyOverlay>, canvas: FrameView, t: int)
    ensures
        composite(sort_by_z(sort_by_z(s)), cleared(canvas), t) == composite(
            sort_by_z(s),
            cleared(canvas),
            t,
        ),
{
    lemma_sort_idempotent(s);
}

/// The compositor's wait time is `None` exactly when every registered
/// overlay independently reports `None` (a fully static scene).
pub proof fn lemma_static_detection(s: Seq<AnyOverlay>, t: int)
    ensures
        (min_next(s, t) is None) <==> (forall|i: int|
            0 <= i < s.len() ==> (#[trigger] s[i]).model().next_change(t) is None),
    decreases s.len(),
{
    if s.len() > 0 {
        lemma_static_detection(s.skip(1), t);
        if min_next(s, t) is None {
            assert(min_next(s.skip(1), t) is None);
            assert forall|i: int| 0 <= i < s.len() implies (#[trigger] s[i]).model().next_change(
                t,
            ) is None by {
                if i > 0 {
                    assert(s.skip(1)[i - 1] == s[i]);
                }
            }
        }
        if forall|i: int| 0 <= i < s.len() ==> (#[trigger] s[i]).model().next_change(t) is None {
            assert forall|i: int| 0 <= i < s.skip(1).len() implies (#[trigger] s.skip(1)[
            i]).model().next_change(t) is None by {
                assert(s.skip(1)[i] == s[i + 1]);
            }
            assert(s[0].model().next_change(t) is None);
        }
    }
}

/// A frame whose every pixel is fully opaque: every alpha byte (every
/// fourth byte of each RGBA group) is 255.
pub open spec fn fully_opaque(f: FrameView) -> bool {
    forall|i: int| 0 <= i < f.buffer.len() && i % 4 == 3 ==> f.buffer[i] == 255
}

/// Index of the source pixel of frame `f` that covers canvas pixel `p`
/// on a canvas `dw` pixels wide.
pub open spec fn covering_pixel(p: int, dw: int, f: FrameView) -> int {
    (p / dw - f.top) * f.width + (p % dw - f.left)
}

/// Drawing `a` and then `b` onto a canvas shows `b`'s colour at every
/// canvas pixel that `b`'s fully opaque active frame covers.
pub proof fn lemma_composite_pair_opaque(
    a: AnyOverlay,
    b: AnyOverlay,
    canvas: FrameView,
    t: int,
    p: int,
)
    requires
        canvas.wf(),
        b.model().wf(),
        b.model().frames.len() > 0,
        fully_opaque(b.model().active_frame(t)),
        0 <= p,
        p * 4 + 4 <= canvas.buffer.len(),
        pixel_in_region(
            p,
            canvas.width,
            b.model().active_frame(t).left,
            b.model().active_frame(t).top,
            b.model().active_frame(t).width,
            b.model().active_frame(t).height,
        ),
    ensures
        ({
            let out = composite(seq![a, b], canvas, t).buffer;
            let f = b.model().active_frame(t);
            let sp = covering_pixel(p, canvas.width, f);
            &&& out[p * 4] == f.buffer[sp * 4]
            &&& out[p * 4 + 1] == f.buffer[sp * 4 + 1]
            &&& out[p * 4 + 2] == f.buffer[sp * 4 + 2]
            &&& out[p * 4 + 3] == 255
        }),
{
    let mb = b.model();
    let f = mb.active_frame(t);
    let cw = canvas.width;
    let c1 = a.model().draw_on(canvas, t);
    let c2 = mb.draw_on(c1, t);
    assert(seq![a, b].skip(1) =~= seq![b]);
    assert(seq![b].skip(1) =~= Seq::<AnyOverlay>::empty());
    assert(composite(seq![a, b], canvas, t) == composite(seq![b], c1, t));
    assert(composite(seq![b], c1, t) == composite(Seq::<AnyOverlay>::empty(), c2, t));
    assert(composite(seq![a, b], canvas, t) == c2);
    assert(c1.buffer.len() == canvas.buffer.len());
    assert(c1.width == cw);
    if mb.animated {
        crate::overlay::overlay::lemma_cycle_index_in_range(mb.frames, mb.cycle_pos(t));
    }
    assert(0 <= mb.active_index(t) < mb.frames.len());
    assert(f.wf());
    let x = p % cw - f.left;
    let y = p / cw - f.top;
    let sp = covering_pixel(p, cw, f);
    assert(0 <= x < f.width && 0 <= y < f.height);
    assert(0 <= sp && sp * 4 + 4 <= f.width * f.height * 4) by (nonlinear_arith)
        requires
            sp == y * f.width + x,
            0 <= x < f.width,
            0 <= y < f.height,
    ;
    vstd::arithmetic::div_mod::lemma_fundamental_div_mod_converse_mod(sp * 4 + 3, 4, sp, 3);
    assert((sp * 4 + 3) % 4 == 3);
    assert(f.buffer[sp * 4 + 3] == 255);
    crate::frame::lemma_blit_opaque_pixel(c1.buffer, cw, f.left, f.top, f.width, f.height,
        f.buffer, p);
    assert(c2.buffer == crate::frame::blit_bytes(
        c1.buffer,
        cw,
        f.left,
        f.top,
        f.width,
        f.height,
        f.buffer,
    ));
}

/// Sorting a two-overlay set whose keys differ puts the lower key
/// first, whichever order the two were added in.
pub proof fn lemma_sort_pair(a: AnyOverlay, b: AnyOverlay)
    requires
        a.model().z <= b.model().z,
    ensures
        sort_by_z(seq![a, b]) == seq![a, b],
        a.model().z < b.model().z ==> sort_by_z(seq![b, a]) == seq![a, b],
{
    let ab = seq![a, b];
    assert(ab.drop_last() =~= seq![a]);
    assert(seq![a].drop_last() =~= Seq::<AnyOverlay>::empty());
    assert(sort_by_z(Seq::<AnyOverlay>::empty()) == Seq::<AnyOverlay>::empty());
    assert(sort_by_z(seq![a]) == insert_sorted(a, Seq::<AnyOverlay>::empty()));
    assert(insert_sorted(a, Seq::<AnyOverlay>::empty()) == seq![a]);
    assert(sort_by_z(ab) == insert_sorted(b, seq![a]));
    assert(seq![a][0] == a);
    assert(seq![a].skip(1) =~= Seq::<AnyOverlay>::empty());
    assert(insert_sorted(b, Seq::<AnyOverlay>::empty()) == seq![b]);
    assert(insert_sorted(b, seq![a]) == seq![a] + seq![b]);
    assert(seq![a] + seq![b] =~= ab);
    if a.model().z < b.model().z {
        let ba = seq![b, a];
        assert(ba.drop_last() =~= seq![b]);
        assert(seq![b].drop_last() =~= Seq::<AnyOverlay>::empty());
        assert(sort_by_z(seq![b]) == insert_sorted(b, Seq::<AnyOverlay>::empty()));
        assert(sort_by_z(ba) == insert_sorted(a, seq![b]));
        assert(seq![b][0] == b);
        assert(!(b.model().z <= a.model().z));
        assert(insert_sorted(a, seq![b]) == seq![a] + seq![b]);
    }
}

/// Z-order: of two overlays with different paint keys, the one with the
/// higher key is drawn on top, whichever order the two were added in:
/// wherever its fully opaque frame covers the canvas, the rendered
/// canvas shows its colour.
pub proof fn lemma_z_order(
    a: AnyOverlay,
    b: AnyOverlay,
    s: Seq<AnyOverlay>,
    canvas: FrameView,
    t: int,
    p: int,
)
    requires
        s == seq![a, b] || s == seq![b, a],
        a.model().z < b.model().z,
        canvas.wf(),
        b.model().wf(),
        b.model().frames.len() > 0,
        fully_opaque(b.model().active_frame(t)),
        0 <= p,
        p * 4 + 4 <= canvas.buffer.len(),
        pixel_in_region(
            p,
            canvas.width,
            b.model().active_frame(t).left,
            b.model().active_frame(t).top,
            b.model().active_frame(t).width,
            b.model().active_frame(t).height,
        ),
    ensures
        ({
            let out = composite(sort_by_z(s), canvas, t).buffer;
            let f = b.model().active_frame(t);
            let sp = covering_pixel(p, canvas.width, f);
            &&& out[p * 4] == f.buffer[sp * 4]
            &&& out[p * 4 + 1] == f.buffer[sp * 4 + 1]
            &&& out[p * 4 + 2] == f.buffer[sp * 4 + 2]
            &&& out[p * 4 + 3] == 255
        }),
{
    lemma_sort_pair(a, b);
    lemma_composite_pair_opaque(a, b, canvas, t, p);
}

/// Stable ordering: two overlays sharing a paint key are drawn in the
/// order they were added, so wherever the later-added one's fully
/// opaque frame covers the canvas, the rendered canvas shows its colour.
pub proof fn lemma_stable_order(a: AnyOverlay, b: AnyOverlay, canvas: FrameView, t: int, p: int)
    requires
        a.model().z == b.model().z,
        canvas.wf(),
        b.model().wf(),
        b.model().frames.len() > 0,
        fully_opaque(b.model().active_frame(t)),
        0 <= p,
        p * 4 + 4 <= canvas.buffer.len(),
        pixel_in_region(
            p,
            canvas.width,
            b.model().active_frame(t).left,
            b.model().active_frame(t).top,
            b.model().active_frame(t).width,
            b.model().active_frame(t).height,
        ),
    ensures
        sort_by_z(seq![a, b]) == seq![a, b],
        ({
            let out = composite(sort_by_z(seq![a, b]), canvas, t).buffer;
            let f = b.model().active_frame(t);
            let sp = covering_pixel(p, canvas.width, f);
            &&& out[p * 4] == f.buffer[sp * 4]
            &&& out[p * 4 + 1] == f.buffer[sp * 4 + 1]
            &&& out[p * 4 + 2] == f.buffer[sp * 4 + 2]
            &&& out[p * 4 + 3] == 255
        }),
{
    lemma_sort_pair(a, b);
    lemma_composite_pair_opaque(a, b, canvas, t, p);
}

/// The central composition engine: orders the registered overlays by
/// `z_index` and draws them in order onto its canvas.
pub struct Compositor {
    /// The output canvas, positioned at the origin, cleared and redrawn
    /// on every render call.
    pub canvas: Frame,
    /// The registered overlays, static or animated.
    pub overlays: Vec<AnyOverlay>,
}

impl Compositor {
    /// The canvas sits at the origin with a well-formed buffer, and
    /// every registered overlay is well formed.
    pub open spec fn wf(&self) -> bool {
        &&& self.canvas.wf()
        &&& self.canvas@.left == 0
        &&& self.canvas@.top == 0
        &&& overlays_wf(self.overlays@)
    }

    /// A compositor with a zero-filled canvas of the given fixed size
    /// and an empty overlay set.
    pub fn new(width: u32, height: u32) -> (c: Compositor)
        requires
            width * height * 4 <= usize::MAX,
        ensures
            c.wf(),
            c.canvas@.width == width as int,
            c.canvas@.height == height as int,
            c.canvas@.delay_ms == 0,
            c.canvas@.buffer == zero_bytes((width * height * 4) as nat),
            c.overlays@ == Seq::<AnyOverlay>::empty(),
    {
        Compositor { canvas: Frame::new(0, 0, width, height, 0), overlays: Vec::new() }
    }

    /// Register an overlay to be composited onto the canvas; overlays
    /// keep their insertion order until `render` establishes paint order.
    pub fn add_overlay(&mut self, overlay: AnyOverlay)
        requires
            old(self).wf(),
            overlay.inv(),
        ensures
            final(self).wf(),
            final(self).canvas == old(self).canvas,
            final(self).overlays@ == old(self).overlays@.push(overlay),
    {
        self.overlays.push(overlay);
    }

    /// Stable-sort the overlay list by ascending `z_index`.
    #[verifier::loop_isolation(false)]
    fn sort_overlays(&mut self)
        requires
            old(self).wf(),
        ensures
            final(self).wf(),
            final(self).canvas == old(self).canvas,
            final(self).overlays@ == sort_by_z(old(self).overlays@),
    {
        let ghost orig: Seq<AnyOverlay> = self.overlays@;
        let n: usize = self.overlays.len();
        if n <= 1 {
            proof {
                if n == 0 {
                    assert(sort_by_z(orig) == orig);
                } else {
                    assert(orig.drop_last() =~= Seq::<AnyOverlay>::empty());
                    assert(sort_by_z(orig.drop_last()) == Seq::<AnyOverlay>::empty());
                    assert(sort_by_z(orig) == insert_sorted(
                        orig.last(),
                        Seq::<AnyOverlay>::empty(),
                    ));
                    assert(insert_sorted(orig.last(), Seq::<AnyOverlay>::empty()) == seq![
                        orig.last(),
                    ]);
                    assert(sort_by_z(orig) =~= orig);
                }
            }
            return ;
        }
        let mut i: usize = 1;
        proof {
            assert(orig.take(1).drop_last() =~= Seq::<AnyOverlay>::empty());
            assert(sort_by_z(orig.take(1).drop_last()) == Seq::<AnyOverlay>::empty());
            assert(sort_by_z(orig.take(1)) == insert_sorted(
                orig.take(1).last(),
                Seq::<AnyOverlay>::empty(),
            ));
            assert(insert_sorted(orig.take(1).last(), Seq::<AnyOverlay>::empty()) == seq![
                orig.take(1).last(),
            ]);
            assert(sort_by_z(orig.take(1)) =~= orig.take(1));
        }
        while i < n
            invariant
                1 <= i,
                i <= n,
                self.overlays@.len() == n,
                self.overlays@.take(i as int) == sort_by_z(orig.take(i as int)),
                self.overlays@.skip(i as int) == orig.skip(i as int),
                overlays_wf(self.overlays@),
                self.canvas == old(self).canvas,
            decreases n - i,
        {
            let ghost before: Seq<AnyOverlay> = self.overlays@;
            let ghost sorted: Seq<AnyOverlay> = before.take(i as int);
            let x = self.overlays.remove(i);
            proof {
                assert(before.skip(i as int)[0] == before[i as int]);
                assert(orig.skip(i as int)[0] == orig[i as int]);
                assert(before.skip(i as int).skip(1) =~= before.skip(i + 1));
                assert(orig.skip(i as int).skip(1) =~= orig.skip(i + 1));
                assert(x == orig[i as int]);
                assert(self.overlays@ =~= sorted + before.skip(i + 1));
            }
            let xz = x.z_index();
            let mut p: usize = 0;
            while p < i && self.overlays[p].z_index() <= xz
                invariant
                    0 <= p <= i,
                    forall|j: int| 0 <= j < p ==> (#[trigger] sorted[j]).model().z <= x.model().z,
                decreases i - p,
            {
                p = p + 1;
            }
            self.overlays.insert(p, x);
            proof {
                lemma_insert_sorted_at(x, sorted, p as int);
                assert(self.overlays@ =~= (sorted.take(p as int).push(x) + sorted.skip(p as int))
                    + before.skip(i + 1));
                assert(self.overlays@.take(i + 1) =~= sorted.take(p as int).push(x) + sorted.skip(
                    p as int,
                ));
                assert(self.overlays@.skip(i + 1) =~= orig.skip(i + 1));
                assert(orig.take(i + 1).drop_last() =~= orig.take(i as int));
                assert(orig.take(i + 1).last() == orig[i as int]);
                assert(self.overlays@.take(i + 1) == sort_by_z(orig.take(i + 1)));
                lemma_insert_sorted_wf(x, sorted);
                assert forall|k: int| 0 <= k < self.overlays@.len() implies (#[trigger] self
                    .overlays@[k]).inv() by {
                    if k < i + 1 {
                        assert(self.overlays@[k] == insert_sorted(x, sorted)[k]);
                    } else {
                        assert(self.overlays@[k] == orig.skip(i + 1)[k - i - 1]);
                    }
                }
            }
            i = i + 1;
        }
        proof {
            if n > 0 {
                assert(orig.take(n as int) =~= orig);
                assert(self.overlays@.take(n as int) =~= self.overlays@);
            }
        }
    }

    /// Render the canvas for the given timestamp: clear it, establish
    /// paint order by a stable sort on `z_index`, and draw every overlay
    /// in that order. The same overlay set and timestamp always produce
    /// the same canvas bytes.
    #[verifier::loop_isolation(false)]
    pub fn render(&mut self, timestamp_ms: u128) -> (frame: &Frame)
        requires
            old(self).wf(),
        ensures
            final(self).wf(),
            final(self).canvas@.width == old(self).canvas@.width,
            final(self).canvas@.height == old(self).canvas@.height,
            final(self).overlays@ == sort_by_z(old(self).overlays@),
            final(self).canvas@ == composite(
                sort_by_z(old(self).overlays@),
                cleared(old(self).canvas@),
                timestamp_ms as int,
            ),
            frame@ == final(self).canvas@,
    {
        self.canvas.clear();
        self.sort_overlays();
        let ghost sorted: Seq<AnyOverlay> = self.overlays@;
        let ghost base: FrameView = self.canvas@;
        let n: usize = self.overlays.len();
        let mut i: usize = 0;
        proof {
            assert(sorted.take(0) =~= Seq::<AnyOverlay>::empty());
        }
        while i < n
            invariant
                i <= n,
                self.overlays@ == sorted,
                self.canvas.wf(),
                self.canvas@.left == 0,
                self.canvas@.top == 0,
                self.canvas@.width == old(self).canvas@.width,
                self.canvas@.height == old(self).canvas@.height,
                self.canvas@ == composite(sorted.take(i as int), base, timestamp_ms as int),
            decreases n - i,
        {
            let o = &self.overlays[i];
            o.draw(&mut self.canvas, timestamp_ms);
            proof {
                lemma_composite_snoc(
                    sorted.take(i as int),
                    sorted[i as int],
                    base,
                    timestamp_ms as int,
                );
                assert(sorted.take(i + 1) =~= sorted.take(i as int).push(sorted[i as int]));
            }
            i = i + 1;
        }
        proof {
            assert(sorted.take(n as int) =~= sorted);
        }
        &self.canvas
    }

    /// The earliest time in milliseconds at which any overlay wants its
    /// next frame; `None` when no overlay requires time-based updates.
    #[verifier::loop_isolation(false)]
    pub fn time_until_next_frame_ms(&self, timestamp_ms: u128) -> (r: Option<u128>)
        requires
            self.wf(),
        ensures
            matches_wait(r, min_next(self.overlays@, timestamp_ms as int)),
    {
        let ghost s: Seq<AnyOverlay> = self.overlays@;
        let n: usize = self.overlays.len();
        let mut best: Option<u128> = None;
        let mut i: usize = n;
        proof {
            assert(s.skip(n as int) =~= Seq::<AnyOverlay>::empty());
        }
        while i > 0
            invariant
                i <= n,
                matches_wait(best, min_next(s.skip(i as int), timestamp_ms as int)),
            decreases i,
        {
            i = i - 1;
            let r = self.overlays[i].time_to_next_frame_ms(timestamp_ms);
            best = match (r, best) {
                (None, b) => b,
                (Some(d), None) => Some(d),
                (Some(d), Some(m)) => Some(
                    if d <= m {
                        d
                    } else {
                        m
                    },
                ),
            };
            proof {
                assert(s.skip(i as int).skip(1) =~= s.skip(i + 1));
                assert(s.skip(i as int)[0] == s[i as int]);
            }
        }
        proof {
            assert(s.skip(0) =~= s);
        }
        best
    }
}


/// The models of a sequence of overlays.
pub open spec fn overlay_models(s: Seq<AnyOverlay>) -> Seq<OverlayModel> {
    s.map_values(|o: AnyOverlay| o.model())
}

/// How many of the descriptors are text overlays.
pub open spec fn text_count(descs: Seq<OverlayDesc>) -> int
    decreases descs.len(),
{
    if descs.len() == 0 {
        0
    } else {
        (match descs[0] {
            OverlayDesc::Text { .. } => 1int,
            _ => 0int,
        }) + text_count(descs.skip(1))
    }
}

/// A batch never holds a negative number of text descriptors.
pub proof fn lemma_text_count_nonneg(descs: Seq<OverlayDesc>)
    ensures
        text_count(descs) >= 0,
    decreases descs.len(),
{
    if descs.len() > 0 {
        lemma_text_count_nonneg(descs.skip(1));
    }
}

/// The overlay models one descriptor converts to: a text descriptor
/// uses the first pre-rasterized text frame; an image or animation
/// descriptor is decoded from its bytes, and yields nothing when the
/// bytes announce unsupported video, cannot be decoded, or decode to
/// no frames.
pub open spec fn convert_one(d: OverlayDesc, texts: Seq<FrameView>, start: int) -> Seq<
    OverlayModel,
> {
    match d {
        OverlayDesc::Text { text: _, size: _, color: _, offset_left, offset_top, z_index } => seq![
            OverlayModel {
                z: z_index as int,
                animated: false,
                start_ms: 0,
                frames: seq![
                    FrameView {
                        left: offset_left as int,
                        top: offset_top as int,
                        width: texts[0].width,
                        height: texts[0].height,
                        buffer: texts[0].buffer,
                        delay_ms: 0,
                    },
                ],
            },
        ],
        OverlayDesc::Image { bytes, offset_left, offset_top, z_index } => if spec_sniff(bytes@)
            == MediaFormat::Mp4 {
            Seq::empty()
        } else {
            match decoded_image(bytes@) {
                Option::None => Seq::empty(),
                Option::Some(d) => seq![
                OverlayModel {
                    z: z_index as int,
                    animated: false,
                    start_ms: 0,
                    frames: seq![
                        FrameView {
                            left: offset_left as int,
                            top: offset_top as int,
                            width: d.0 as int,
                            height: d.1 as int,
                            buffer: d.2.take((d.0 * d.1 * 4) as int),
                            delay_ms: 0,
                        },
                    ],
                },
                ],
            }
        },
        OverlayDesc::AnimatedImage { bytes, offset_left, offset_top, z_index } => if spec_sniff(
            bytes@,
        ) == MediaFormat::Mp4 {
            Seq::empty()
        } else {
            match gif_frames(bytes@) {
                Option::None => Seq::empty(),
                Option::Some(fs) => if fs.len() == 0 {
                    Seq::empty()
                } else {
                    seq![
                OverlayModel {
                    z: z_index as int,
                    animated: true,
                    start_ms: start,
                    frames: Seq::new(
                        fs.len(),
                        |i: int|
                            FrameView {
                                left: offset_left as int,
                                top: offset_top as int,
                                width: fs[i].0 as int,
                                height: fs[i].1 as int,
                                buffer: fs[i].2.take((fs[i].0 * fs[i].1 * 4) as int),
                                delay_ms: (fs[i].3 / fs[i].4) as int,
                            },
                    ),
                },
                    ]
                },
            }
        },
    }
}

/// The overlay models a batch of descriptors converts to, consuming
/// one pre-rasterized text frame per text descriptor, in order.
pub open spec fn converted(descs: Seq<OverlayDesc>, texts: Seq<FrameView>, start: int) -> Seq<
    OverlayModel,
>
    decreases descs.len(),
{
    if descs.len() == 0 {
        Seq::empty()
    } else {
        let rest_texts = match descs[0] {
            OverlayDesc::Text { .. } => texts.skip(1),
            _ => texts,
        };
        convert_one(descs[0], texts, start) + converted(descs.skip(1), rest_texts, start)
    }
}

/// Translate a server overlay batch into registered compositor
/// overlays: image and animation descriptors are decoded from their
/// raw bytes, text descriptors use the pre-rasterized frames the text
/// shaping service produced, one per text descriptor, in order. A
/// payload that fails to decode is skipped, and the remaining overlays
/// of the batch are still registered; any other message leaves the
/// compositor unchanged. Returns how many overlays were registered.
#[verifier::loop_isolation(false)]
pub fn add_overlays_from_message(
    compositor: &mut Compositor,
    message: ServerMessageType,
    start_time_ms: u128,
    text_frames: Vec<Frame>,
) -> (added: usize)
    requires
        old(compositor).wf(),
        message matches ServerMessageType::Overlays { overlays, options } ==> text_frames@.len()
            == text_count(overlays@) && (forall|i: int|
            0 <= i < text_frames@.len() ==> (#[trigger] text_frames@[i]).wf()),
    ensures
        final(compositor).wf(),
        final(compositor).canvas == old(compositor).canvas,
        match message {
            ServerMessageType::Overlays { overlays, options } => overlay_models(
                final(compositor).overlays@,
            ) == overlay_models(old(compositor).overlays@) + converted(
                overlays@,
                frame_views(text_frames@),
                start_time_ms as int,
            ) && added as int == converted(
                overlays@,
                frame_views(text_frames@),
                start_time_ms as int,
            ).len(),
            _ => final(compositor).overlays@ == old(compositor).overlays@ && added == 0,
        },
{
    match message {
        ServerMessageType::Overlays { overlays: descs0, options: _ } => {
            let mut descs = descs0;
            let mut texts = text_frames;
            let ghost odv: Seq<OverlayDesc> = descs@;
            let ghost tseq: Seq<Frame> = texts@;
            let ghost tfv: Seq<FrameView> = frame_views(tseq);
            let ghost start: int = start_time_ms as int;
            let ghost oldmodels: Seq<OverlayModel> = overlay_models(compositor.overlays@);
            let ghost mut donemodels: Seq<OverlayModel> = Seq::empty();
            let ghost mut ti: int = 0;
            let mut added: usize = 0;
            let n: usize = descs.len();
            let mut i: usize = 0;
            proof {
                assert(odv.skip(0) =~= odv);
                assert(tseq.skip(0) =~= tseq);
                assert(donemodels + converted(odv, tfv, start) =~= converted(odv, tfv, start));
                assert(tfv.skip(0) =~= tfv);
            }
            while i < n
                invariant
                    i <= n,
                    n == odv.len(),
                    descs@ == odv.skip(i as int),
                    0 <= ti <= tseq.len(),
                    texts@ == tseq.skip(ti),
                    text_count(odv.skip(i as int)) == tseq.len() - ti,
                    compositor.wf(),
                    compositor.canvas == old(compositor).canvas,
                    overlay_models(compositor.overlays@) == oldmodels + donemodels,
                    donemodels + converted(odv.skip(i as int), tfv.skip(ti), start) == converted(
                        odv,
                        tfv,
                        start,
                    ),
                    added as int == donemodels.len(),
                    donemodels.len() <= i,
                decreases n - i,
            {
                let d = descs.remove(0);
                proof {
                    assert(odv.skip(i as int)[0] == odv[i as int]);
                    assert(d == odv[i as int]);
                    assert(descs@ =~= odv.skip(i + 1));
                    assert(odv.skip(i as int).skip(1) =~= odv.skip(i + 1));
                    assert(text_count(odv.skip(i as int)) == (match odv[i as int] {
                        OverlayDesc::Text { .. } => 1int,
                        _ => 0,
                    }) + text_count(odv.skip(i + 1)));
                    lemma_text_count_nonneg(odv.skip(i + 1));
                }
                let ghost head: Seq<OverlayModel> = convert_one(odv[i as int], tfv.skip(ti), start);
                let ghost rest_texts: Seq<FrameView> = (match odv[i as int] {
                    OverlayDesc::Text { .. } => tfv.skip(ti).skip(1),
                    _ => tfv.skip(ti),
                });
                proof {
                    assert(converted(odv.skip(i as int), tfv.skip(ti), start) == head + converted(
                        odv.skip(i + 1),
                        rest_texts,
                        start,
                    ));
                }
                match d {
                    OverlayDesc::Text { text: _, size: _, color: _, offset_left, offset_top, z_index } => {
                        proof {
                            assert(ti + 1 <= tseq.len());
                            assert(tfv.skip(ti).skip(1) =~= tfv.skip(ti + 1));
                            assert(tseq.skip(ti)[0] == tseq[ti]);
                            assert(tfv.skip(ti)[0] == tfv[ti]);
                            assert(tfv[ti] == tseq[ti]@);
                            assert(tseq[ti].wf());
                        }
                        let tfr = texts.remove(0);
                        proof {
                            assert(tfr == tseq[ti]);
                            assert(texts@ =~= tseq.skip(ti + 1));
                        }
                        let frame = Frame::from_bytes(
                            offset_left,
                            offset_top,
                            tfr.width,
                            tfr.height,
                            tfr.buffer.as_slice(),
                            0,
                        );
                        let ov = TextOverlay::new(frame, z_index);
                        let ghost m: OverlayModel = ov.model();
                        let any = AnyOverlay::Text(ov);
                        let ghost item: AnyOverlay = any;
                        let ghost pre: Seq<AnyOverlay> = compositor.overlays@;
                        compositor.add_overlay(any);
                        added = added + 1;
                        proof {
                            assert(overlay_models(pre.push(item)) =~= overlay_models(pre).push(
                                item.model(),
                            ));
                            assert(frame@ =~= (FrameView {
                                left: offset_left as int,
                                top: offset_top as int,
                                width: tfv.skip(ti)[0].width,
                                height: tfv.skip(ti)[0].height,
                                buffer: tfv.skip(ti)[0].buffer,
                                delay_ms: 0,
                            }));
                            assert(m =~= head[0]);
                            assert(head =~= seq![m]);
                            assert(overlay_models(compositor.overlays@) =~= oldmodels
                                + donemodels.push(m));
                            assert((donemodels.push(m)) + converted(odv.skip(i + 1), rest_texts, start)
                                =~= donemodels + (head + converted(odv.skip(i + 1), rest_texts, start)));
                            donemodels = donemodels.push(m);
                            ti = ti + 1;
                        }
                    },
                    OverlayDesc::Image { bytes, offset_left, offset_top, z_index } => {
                        match ImageOverlay::from_bytes(
                            bytes.as_slice(),
                            offset_left,
                            offset_top,
                            z_index,
                        ) {
                            Ok(ov) => {
                                let ghost m: OverlayModel = ov.model();
                                let any = AnyOverlay::Image(ov);
                                let ghost item: AnyOverlay = any;
                                let ghost pre: Seq<AnyOverlay> = compositor.overlays@;
                                compositor.add_overlay(any);
                                added = added + 1;
                                proof {
                                    assert(overlay_models(pre.push(item)) =~= overlay_models(
                                        pre,
                                    ).push(item.model()));
                                    assert(m =~= head[0]);
                                    assert(head =~= seq![m]);
                                    assert(overlay_models(compositor.overlays@) =~= oldmodels
                                        + donemodels.push(m));
                                    assert((donemodels.push(m)) + converted(
                                        odv.skip(i + 1),
                                        rest_texts,
                                        start,
                                    ) =~= donemodels + (head + converted(
                                        odv.skip(i + 1),
                                        rest_texts,
                                        start,
                                    )));
                                    donemodels = donemodels.push(m);
                                }
                            },
                            Err(_) => {
                                proof {
                                    assert(head =~= Seq::<OverlayModel>::empty());
                                    assert(donemodels + converted(odv.skip(i + 1), rest_texts, start)
                                        =~= donemodels + (head + converted(
                                        odv.skip(i + 1),
                                        rest_texts,
                                        start,
                                    )));
                                }
                            },
                        }
                    },
                    OverlayDesc::AnimatedImage { bytes, offset_left, offset_top, z_index } => {
                        match AnimatedOverlay::from_bytes(
                            bytes.as_slice(),
                            offset_left,
                            offset_top,
                            z_index,
                            start_time_ms,
                        ) {
                            Ok(ov) => {
                                let ghost m: OverlayModel = ov.model();
                                let any = AnyOverlay::Animated(ov);
                                let ghost item: AnyOverlay = any;
                                let ghost pre: Seq<AnyOverlay> = compositor.overlays@;
                                compositor.add_overlay(any);
                                added = added + 1;
                                proof {
                                    assert(overlay_models(pre.push(item)) =~= overlay_models(
                                        pre,
                                    ).push(item.model()));
                                    assert(m.frames =~= head[0].frames);
                                    assert(m =~= head[0]);
                                    assert(head =~= seq![m]);
                                    assert(overlay_models(compositor.overlays@) =~= oldmodels
                                        + donemodels.push(m));
                                    assert((donemodels.push(m)) + converted(
                                        odv.skip(i + 1),
                                        rest_texts,
                                        start,
                                    ) =~= donemodels + (head + converted(
                                        odv.skip(i + 1),
                                        rest_texts,
                                        start,
                                    )));
                                    donemodels = donemodels.push(m);
                                }
                            },
                            Err(_) => {
                                proof {
                                    assert(head =~= Seq::<OverlayModel>::empty());
                                    assert(donemodels + converted(odv.skip(i + 1), rest_texts, start)
                                        =~= donemodels + (head + converted(
                                        odv.skip(i + 1),
                                        rest_texts,
                                        start,
                                    )));
                                }
                            },
                        }
                    },
                }
                i = i + 1;
            }
            proof {
                assert(odv.skip(n as int) =~= Seq::<OverlayDesc>::empty());
                assert(converted(odv.skip(n as int), tfv.skip(ti), start) =~= Seq::<
                    OverlayModel,
                >::empty());
                assert(donemodels =~= converted(odv, tfv, start));
            }
            added
        },
        _ => 0,
    }
}

} // verus!
