//! A static text overlay: one rasterized glyph bitmap drawn unchanged at
//! every timestamp.

use vstd::prelude::*;

use crate::frame::Frame;
use crate::overlay::overlay::{total_delay, Overlay, OverlayModel};

verus! {

/// Static text overlay rasterized as a bitmap covering the shaped
/// text's bounding box.
pub struct TextOverlay {
    /// Paint-order key.
    pub z_index: u32,
    /// The rasterized text bitmap, positioned at its stored offset.
    pub frame: Frame,
}

impl TextOverlay {
    /// Wrap an already rasterized text frame as an overlay with the given
    /// paint-order key.
    pub fn new(frame: Frame, z_index: u32) -> (r: TextOverlay)
        requires
            frame.wf(),
        ensures
            r.inv(),
            r.model() == (OverlayModel {
                z: z_index as int,
                animated: false,
                start_ms: 0,
                frames: seq![frame@],
            }),
    {
        proof {
            assert(seq![frame@].skip(1) =~= Seq::<crate::frame::FrameView>::empty());
            assert(total_delay(seq![frame@]) == frame@.delay_ms + total_delay(
                seq![frame@].skip(1),
            ));
        }
        TextOverlay { z_index, frame }
    }
}

/// Write one rasterized glyph pixel into a text bitmap, as the shaping
/// service's per-pixel callback asks: a fully transparent pixel and a
/// pixel outside the bitmap are left untouched, any other is set to the
/// given colour.
#[verifier::loop_isolation(false)]
pub fn write_text_pixel(
    pixels: &mut Vec<u8>,
    width: u32,
    height: u32,
    x: i32,
    y: i32,
    color: [u8; 4],
)
    requires
        old(pixels)@.len() == width * height * 4,
    ensures
        final(pixels)@.len() == old(pixels)@.len(),
        ({
            let idx = ((y as int) * (width as int) + (x as int)) * 4;
            if color[3] == 0 || x < 0 || x >= width as i32 || y < 0 || y >= height as i32 {
                final(pixels)@ == old(pixels)@
            } else {
                final(pixels)@ == old(pixels)@.update(idx, color[0]).update(idx + 1, color[1])
                    .update(idx + 2, color[2]).update(idx + 3, color[3])
            }
        }),
{
    if color[3] == 0 || x < 0 || x >= width as i32 || y < 0 || y >= height as i32 {
        return ;
    }
    let l: usize = pixels.len();
    proof {
        assert(((y as int) * (width as int) + (x as int)) * 4 + 4 <= (width as int) * (
        height as int) * 4) by (nonlinear_arith)
            requires
                0 <= (x as int) < width as int,
                0 <= (y as int) < height as int,
        ;
        assert((width as int) * (height as int) * 4 == l as int);
    }
    let idx: usize = ((((y as u64) * (width as u64)) + (x as u64)) * 4) as usize;
    pixels[idx] = color[0];
    pixels[idx + 1] = color[1];
    pixels[idx + 2] = color[2];
    pixels[idx + 3] = color[3];
}

impl Overlay for TextOverlay {
    open spec fn model(&self) -> OverlayModel {
        OverlayModel {
            z: self.z_index as int,
            animated: false,
            start_ms: 0,
            frames: seq![self.frame@],
        }
    }

    open spec fn inv(&self) -> bool {
        self.model().wf()
    }

    fn z_index(&self) -> u32 {
        self.z_index
    }

    fn draw(&self, frame: &mut Frame, timestamp_ms: u128) {
        proof {
            assert(self.model().frames[0].wf());
        }
        frame.blit(
            self.frame.left,
            self.frame.top,
            self.frame.width,
            self.frame.height,
            self.frame.buffer.as_slice(),
        );
    }

    fn time_to_next_frame_ms(&self, timestamp_ms: u128) -> Option<u128> {
        None
    }
}

} // verus!
