//! An animated image overlay: an ordered sequence of frames with
//! per-frame durations, looping forever with period equal to the sum of
//! the durations, anchored at a fixed start time.

use vstd::prelude::*;
use vstd::arithmetic::div_mod::{lemma_mod_add_multiples_vanish, lemma_mod_bound};

use crate::frame::{Frame, FrameView};
use crate::media::decoder::{sniff_format, spec_sniff, DecodeError, MediaFormat};
use crate::media::image::gif_decoder::{decode_gif, gif_frames};
use crate::overlay::overlay::{lemma_total_delay_bounded, 
    cycle_index, cycle_remaining, lemma_total_delay_nonneg, lemma_total_delay_split, total_delay,
    Overlay, OverlayModel,
};

verus! {

/// The models of a sequence of owned frames.
pub open spec fn frame_views(frames: Seq<Frame>) -> Seq<FrameView> {
    frames.map_values(|f: Frame| f@)
}

/// Animated image overlay: an ordered sequence of frames, each with its
/// own duration, looping forever from `start_time_ms`.
pub struct AnimatedOverlay {
    /// The decoded frames, in display order.
    pub frames: Vec<Frame>,
    /// Paint-order key.
    pub z_index: u32,
    /// Timestamp at which the animation cycle is anchored.
    pub start_time_ms: u128,
}

impl AnimatedOverlay {
    /// The frame models this overlay owns.
    pub open spec fn spec_frames(&self) -> Seq<FrameView> {
        frame_views(self.frames@)
    }

    /// Wrap a sequence of already decoded frames as a looping overlay
    /// anchored at `start_time_ms`.
    pub fn new(frames: Vec<Frame>, z_index: u32, start_time_ms: u128) -> (r: AnimatedOverlay)
        requires
            forall|i: int| 0 <= i < frames@.len() ==> (#[trigger] frames@[i]).wf(),
            total_delay(frame_views(frames@)) <= u128::MAX,
        ensures
            r.inv(),
            r.model() == (OverlayModel {
                z: z_index as int,
                animated: true,
                start_ms: start_time_ms as int,
                frames: frame_views(frames@),
            }),
    {
        AnimatedOverlay { frames, z_index, start_time_ms }
    }

    /// Decode raw GIF bytes into a looping animated overlay positioned
    /// at `(x, y)` and anchored at `start_time_ms`. A payload that
    /// announces video (MP4) is rejected as unsupported media, one
    /// that cannot be decoded or decodes to no frames at all as
    /// invalid data; none is ever registered.
    #[verifier::loop_isolation(false)]
    pub fn from_bytes(bytes: &[u8], x: i32, y: i32, z_index: u32, start_time_ms: u128) -> (r:
        Result<AnimatedOverlay, DecodeError>)
        ensures
            r is Ok <==> spec_sniff(bytes@) != MediaFormat::Mp4 && gif_frames(bytes@) is Some
                && gif_frames(bytes@)->Some_0.len() > 0,
            r matches Ok(o) ==> ({
                let s = gif_frames(bytes@)->Some_0;
                &&& o.inv()
                &&& o.model().z == z_index as int
                &&& o.model().animated
                &&& o.model().start_ms == start_time_ms as int
                &&& o.model().frames.len() == s.len()
                &&& forall|i: int|
                    0 <= i < s.len() ==> (#[trigger] o.model().frames[i]) == (FrameView {
                        left: x as int,
                        top: y as int,
                        width: s[i].0 as int,
                        height: s[i].1 as int,
                        buffer: s[i].2.take((s[i].0 * s[i].1 * 4) as int),
                        delay_ms: (s[i].3 / s[i].4) as int,
                    })
            }),
            r matches Err(e) ==> (if spec_sniff(bytes@) == MediaFormat::Mp4 {
                e == DecodeError::UnsupportedMedia
            } else {
                e == DecodeError::InvalidData && (gif_frames(bytes@) is None || gif_frames(
                    bytes@,
                )->Some_0.len() == 0)
            }),
    {
        if sniff_format(bytes) == MediaFormat::Mp4 {
            return Err(DecodeError::UnsupportedMedia);
        }
        match decode_gif(bytes) {
            None => Err(DecodeError::InvalidData),
            Some(mut v) => {
                if v.len() == 0 {
                    return Err(DecodeError::InvalidData);
                }
                let ghost s = gif_frames(bytes@)->Some_0;
                let ghost origv = v@;
                let mut frames: Vec<Frame> = Vec::new();
                let n: usize = v.len();
                let mut i: usize = 0;
                while i < n
                    invariant
                        i <= n,
                        i + v@.len() == n,
                        v@ == origv.skip(i as int),
                        frames@.len() == i,
                        forall|k: int|
                            0 <= k < i ==> (#[trigger] frames@[k]@) == (FrameView {
                                left: x as int,
                                top: y as int,
                                width: s[k].0 as int,
                                height: s[k].1 as int,
                                buffer: s[k].2.take((s[k].0 * s[k].1 * 4) as int),
                                delay_ms: (s[k].3 / s[k].4) as int,
                            }),
                        forall|k: int| 0 <= k < i ==> (#[trigger] frames@[k]).wf(),
                        forall|k: int|
                            0 <= k < i ==> (#[trigger] frames@[k]).delay_ms <= u32::MAX,
                    decreases n - i,
                {
                    let t = v.remove(0);
                    proof {
                        assert(origv.skip(i as int)[0] == origv[i as int]);
                        assert(origv.skip(i as int).remove(0) =~= origv.skip(i + 1));
                        assert(t == origv[i as int]);
                    }
                    let (w, h, mut rgba, numerator, denominator) = t;
                    let _len: usize = rgba.len();
                    let m: usize = (w as usize) * (h as usize) * 4;
                    rgba.truncate(m);
                    let delay: u32 = numerator / denominator;
                    let frame = Frame::from_bytes(x, y, w, h, rgba.as_slice(), delay as u128);
                    frames.push(frame);
                    i = i + 1;
                }
                proof {
                    assert(frame_views(frames@).len() == s.len());
                    assert forall|k: int| 0 <= k < frame_views(frames@).len() implies (
                    #[trigger] frame_views(frames@)[k]).delay_ms <= u32::MAX
                        && frame_views(frames@)[k].wf() by {
                        assert(frame_views(frames@)[k] == frames@[k]@);
                    }
                    lemma_total_delay_bounded(frame_views(frames@), u32::MAX as int);
                    assert(frames@.len() * (u32::MAX as int) <= u128::MAX) by (nonlinear_arith)
                        requires
                            frames@.len() <= usize::MAX,
                    ;
                }
                Ok(AnimatedOverlay::new(frames, z_index, start_time_ms))
            },
        }
    }

    /// The period of the animation cycle: the sum of all frame durations.
    fn total_duration(&self) -> (t: u128)
        requires
            self.inv(),
        ensures
            t as int == total_delay(self.spec_frames()),
    {
        let ghost sf: Seq<FrameView> = self.spec_frames();
        let n: usize = self.frames.len();
        let mut total: u128 = 0;
        let mut i: usize = 0;
        while i < n
            invariant
                self.inv(),
                n == self.frames@.len(),
                i <= n,
                sf == self.spec_frames(),
                total as int == total_delay(sf.take(i as int)),
            decreases n - i,
        {
            proof {
                lemma_total_delay_split(sf, i + 1);
                lemma_total_delay_split(sf, i as int);
                lemma_total_delay_nonneg(sf.skip(i + 1));
                assert(sf.take(i + 1).take(i as int) =~= sf.take(i as int));
                assert(sf.take(i + 1).skip(i as int) =~= seq![sf[i as int]]);
                lemma_total_delay_split(sf.take(i + 1), i as int);
                assert(total_delay(seq![sf[i as int]]) == sf[i as int].delay_ms + total_delay(
                    seq![sf[i as int]].skip(1),
                ));
                assert(seq![sf[i as int]].skip(1) =~= Seq::<FrameView>::empty());
            }
            total = total + self.frames[i].delay_ms;
            i = i + 1;
        }
        proof {
            assert(sf.take(n as int) =~= sf);
        }
        total
    }

    /// Index of the frame the animation displays at `timestamp_ms`:
    /// frame 0 when there are no frames or the period is zero, else the
    /// frame whose span contains the position inside the current cycle.
    #[verifier::loop_isolation(false)]
    pub fn current_frame_index(&self, timestamp_ms: u128) -> (idx: usize)
        requires
            self.inv(),
        ensures
            idx as int == self.model().active_index(timestamp_ms as int),
            self.frames@.len() > 0 ==> idx < self.frames@.len(),
    {
        let ghost sf: Seq<FrameView> = self.spec_frames();
        let n: usize = self.frames.len();
        if n == 0 {
            return 0;
        }
        let total = self.total_duration();
        if total == 0 {
            return 0;
        }
        let elapsed: u128 = if timestamp_ms >= self.start_time_ms {
            timestamp_ms - self.start_time_ms
        } else {
            0
        };
        let mut tic: u128 = elapsed % total;
        let ghost pos: int = tic as int;
        proof {
            lemma_mod_bound(elapsed as int, total as int);
            assert(sf.skip(0) =~= sf);
            assert(sf.take(0) =~= Seq::<FrameView>::empty());
        }
        let mut i: usize = 0;
        while i < n
            invariant
                self.inv(),
                n == self.frames@.len(),
                n > 0,
                i <= n,
                sf == self.spec_frames(),
                total as int == total_delay(sf),
                tic as int == pos - total_delay(sf.take(i as int)),
                (tic as int) < total_delay(sf.skip(i as int)),
                cycle_index(sf, pos) == i + cycle_index(sf.skip(i as int), tic as int),
            decreases n - i,
        {
            let d: u128 = self.frames[i].delay_ms;
            proof {
                assert(sf.skip(i as int).skip(1) =~= sf.skip(i + 1));
                assert(sf.skip(i as int)[0] == sf[i as int]);
                assert(sf.take(i + 1).take(i as int) =~= sf.take(i as int));
                assert(sf.take(i + 1).skip(i as int) =~= seq![sf[i as int]]);
                lemma_total_delay_split(sf.take(i + 1), i as int);
                assert(seq![sf[i as int]].skip(1) =~= Seq::<FrameView>::empty());
                assert(total_delay(seq![sf[i as int]]) == sf[i as int].delay_ms + total_delay(
                    seq![sf[i as int]].skip(1),
                ));
                assert(total_delay(sf.take(i + 1)) == total_delay(sf.take(i as int))
                    + sf[i as int].delay_ms);
            }
            if tic < d {
                proof {
                    assert(cycle_index(sf.skip(i as int), tic as int) == 0);
                    assert(self.model().frames == sf);
                    assert(pos == self.model().cycle_pos(timestamp_ms as int));
                    assert(self.model().active_index(timestamp_ms as int) == cycle_index(sf, pos));
                }
                return i;
            }
            proof {
                if sf.skip(i as int).len() > 1 {
                    assert(cycle_index(sf.skip(i as int), tic as int) == 1 + cycle_index(
                        sf.skip(i as int).skip(1),
                        tic as int - sf.skip(i as int)[0].delay_ms,
                    ));
                } else {
                    assert(total_delay(sf.skip(i as int)) == d + total_delay(sf.skip(i + 1)));
                    assert(false);
                }
            }
            tic = tic - d;
            i = i + 1;
        }
        proof {
            assert(sf.skip(n as int) =~= Seq::<FrameView>::empty());
            assert(false);
        }
        n - 1
    }

    /// How many milliseconds remain until the end of the span of the
    /// frame active at `timestamp_ms`; `None` when there are no frames
    /// or the period is zero.
    #[verifier::loop_isolation(false)]
    pub fn time_remaining_on_current_frame(&self, timestamp_ms: u128) -> (r: Option<u128>)
        requires
            self.inv(),
        ensures
            match r {
                Some(d) => self.model().next_change(timestamp_ms as int) == Some(d as int),
                None => self.model().next_change(timestamp_ms as int) is None,
            },
    {
        let ghost sf: Seq<FrameView> = self.spec_frames();
        let n: usize = self.frames.len();
        if n == 0 {
            return None;
        }
        let total = self.total_duration();
        if total == 0 {
            return None;
        }
        let elapsed: u128 = if timestamp_ms >= self.start_time_ms {
            timestamp_ms - self.start_time_ms
        } else {
            0
        };
        let mut tic: u128 = elapsed % total;
        let ghost pos: int = tic as int;
        proof {
            lemma_mod_bound(elapsed as int, total as int);
            assert(sf.skip(0) =~= sf);
            assert(sf.take(0) =~= Seq::<FrameView>::empty());
        }
        let mut i: usize = 0;
        while i < n
            invariant
                self.inv(),
                n == self.frames@.len(),
                n > 0,
                i <= n,
                sf == self.spec_frames(),
                total as int == total_delay(sf),
                tic as int == pos - total_delay(sf.take(i as int)),
                (tic as int) < total_delay(sf.skip(i as int)),
                cycle_remaining(sf, pos) == cycle_remaining(sf.skip(i as int), tic as int),
            decreases n - i,
        {
            let d: u128 = self.frames[i].delay_ms;
            proof {
                assert(sf.skip(i as int).skip(1) =~= sf.skip(i + 1));
                assert(sf.skip(i as int)[0] == sf[i as int]);
                assert(sf.take(i + 1).take(i as int) =~= sf.take(i as int));
                assert(sf.take(i + 1).skip(i as int) =~= seq![sf[i as int]]);
                lemma_total_delay_split(sf.take(i + 1), i as int);
                assert(seq![sf[i as int]].skip(1) =~= Seq::<FrameView>::empty());
                assert(total_delay(seq![sf[i as int]]) == sf[i as int].delay_ms + total_delay(
                    seq![sf[i as int]].skip(1),
                ));
                assert(total_delay(sf.take(i + 1)) == total_delay(sf.take(i as int))
                    + sf[i as int].delay_ms);
            }
            if tic < d {
                proof {
                    assert(cycle_remaining(sf.skip(i as int), tic as int) == d - tic);
                }
                return Some(d - tic);
            }
            proof {
                if sf.skip(i as int).len() > 1 {
                    assert(cycle_remaining(sf.skip(i as int), tic as int) == cycle_remaining(
                        sf.skip(i as int).skip(1),
                        tic as int - sf.skip(i as int)[0].delay_ms,
                    ));
                } else {
                    assert(total_delay(sf.skip(i as int)) == d + total_delay(sf.skip(i + 1)));
                    assert(false);
                }
            }
            tic = tic - d;
            i = i + 1;
        }
        proof {
            assert(sf.skip(n as int) =~= Seq::<FrameView>::empty());
            assert(false);
        }
        Some(self.frames[0].delay_ms)
    }
}

impl Overlay for AnimatedOverlay {
    open spec fn model(&self) -> OverlayModel {
        OverlayModel {
            z: self.z_index as int,
            animated: true,
            start_ms: self.start_time_ms as int,
            frames: frame_views(self.frames@),
        }
    }

    open spec fn inv(&self) -> bool {
        self.model().wf()
    }

    fn z_index(&self) -> u32 {
        self.z_index
    }

    fn draw(&self, frame: &mut Frame, timestamp_ms: u128) {
        if self.frames.len() == 0 {
            return;
        }
        let idx = self.current_frame_index(timestamp_ms);
        proof {
            assert(self.model().frames[idx as int].wf());
        }
        let f = &self.frames[idx];
        frame.blit(f.left, f.top, f.width, f.height, f.buffer.as_slice());
    }

    fn time_to_next_frame_ms(&self, timestamp_ms: u128) -> Option<u128> {
        self.time_remaining_on_current_frame(timestamp_ms)
    }
}

/// An animation with a positive period repeats exactly: at any time at
/// or after its start, the active frame index and the remaining span
/// are the same one full period later.
pub proof fn lemma_animation_periodic(m: OverlayModel, t: int)
    requires
        m.wf(),
        m.animated,
        m.frames.len() > 0,
        total_delay(m.frames) > 0,
        t >= m.start_ms,
    ensures
        m.active_index(t + total_delay(m.frames)) == m.active_index(t),
        m.next_change(t + total_delay(m.frames)) == m.next_change(t),
{
    let p = total_delay(m.frames);
    let e = t - m.start_ms;
    lemma_mod_add_multiples_vanish(e, p);
    assert(m.cycle_pos(t + p) == m.cycle_pos(t));
}

} // verus!
