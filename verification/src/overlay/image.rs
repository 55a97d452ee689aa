//! A static image overlay: a single decoded frame drawn unchanged at
//! every timestamp.

use vstd::prelude::*;

use crate::frame::{Frame, FrameView};
use crate::media::decoder::{sniff_format, spec_sniff, DecodeError, MediaFormat};
use crate::media::image::basic_decoder::{decode_rgba, decoded_image};
use crate::overlay::overlay::{total_delay, Overlay, OverlayModel};

verus! {

/// Static image overlay holding one decoded frame.
pub struct ImageOverlay {
    /// Paint-order key.
    pub z_index: u32,
    /// The decoded bitmap, positioned at its stored offset.
    pub frame: Frame,
}

impl ImageOverlay {
    /// Wrap an already decoded frame as an overlay with the given
    /// paint-order key.
    pub fn new(frame: Frame, z_index: u32) -> (r: ImageOverlay)
        requires
            frame.wf(),
        ensures
            r.inv(),
            r.model() == (OverlayModel {
                z: z_index as int,
                animated: false,
                start_ms: 0,
                frames: seq![frame@],
            }),
    {
        proof {
            assert(seq![frame@].skip(1) =~= Seq::<crate::frame::FrameView>::empty());
            assert(total_delay(seq![frame@]) == frame@.delay_ms + total_delay(
                seq![frame@].skip(1),
            ));
        }
        ImageOverlay { z_index, frame }
    }
}

impl ImageOverlay {
    /// Decode raw encoded image bytes (PNG, JPEG, WebP and the other
    /// formats the decoder can sniff) into a static overlay positioned
    /// at `(left, top)`. A payload announcing video (MP4) is rejected
    /// as unsupported media, one that cannot be decoded as invalid
    /// data; neither is ever registered.
    pub fn from_bytes(bytes: &[u8], left: i32, top: i32, z_index: u32) -> (r: Result<
        ImageOverlay,
        DecodeError,
    >)
        ensures
            r is Ok <==> spec_sniff(bytes@) != MediaFormat::Mp4 && decoded_image(bytes@) is Some,
            r matches Ok(o) ==> ({
                let d = decoded_image(bytes@)->Some_0;
                &&& o.inv()
                &&& o.model() == (OverlayModel {
                    z: z_index as int,
                    animated: false,
                    start_ms: 0,
                    frames: seq![
                        FrameView {
                            left: left as int,
                            top: top as int,
                            width: d.0 as int,
                            height: d.1 as int,
                            buffer: d.2.take((d.0 * d.1 * 4) as int),
                            delay_ms: 0,
                        },
                    ],
                })
            }),
            r matches Err(e) ==> (if spec_sniff(bytes@) == MediaFormat::Mp4 {
                e == DecodeError::UnsupportedMedia
            } else {
                e == DecodeError::InvalidData && decoded_image(bytes@) is None
            }),
    {
        if sniff_format(bytes) == MediaFormat::Mp4 {
            return Err(DecodeError::UnsupportedMedia);
        }
        match decode_rgba(bytes) {
            None => Err(DecodeError::InvalidData),
            Some((w, h, mut rgba)) => {
                let _len: usize = rgba.len();
                let n: usize = (w as usize) * (h as usize) * 4;
                rgba.truncate(n);
                let frame = Frame::from_bytes(left, top, w, h, rgba.as_slice(), 0);
                Ok(ImageOverlay::new(frame, z_index))
            },
        }
    }
}

impl Overlay for ImageOverlay {
    open spec fn model(&self) -> OverlayModel {
        OverlayModel {
            z: self.z_index as int,
            animated: false,
            start_ms: 0,
            frames: seq![self.frame@],
        }
    }

    open spec fn inv(&self) -> bool {
        self.model().wf()
    }

    fn z_index(&self) -> u32 {
        self.z_index
    }

    fn draw(&self, frame: &mut Frame, timestamp_ms: u128) {
        proof {
            assert(self.model().frames[0].wf());
        }
        frame.blit(
            self.frame.left,
            self.frame.top,
            self.frame.width,
            self.frame.height,
            self.frame.buffer.as_slice(),
        );
    }

    fn time_to_next_frame_ms(&self, timestamp_ms: u128) -> Option<u128> {
        None
    }
}

} // verus!
