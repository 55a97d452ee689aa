//! An owned rectangular RGBA8 pixel buffer with a screen position and an
//! intrinsic display duration, together with the Porter-Duff "over"
//! compositing operation used to merge one buffer onto another.

use vstd::prelude::*;
use vstd::arithmetic::div_mod::{
    lemma_div_pos_is_pos, lemma_fundamental_div_mod_converse_div,
    lemma_fundamental_div_mod_converse_mod, lemma_multiply_divide_le,
};

verus! {

/// Mathematical model of a [`Frame`]: its position, its size, the byte
/// sequence of its pixel buffer and its display duration.
#[verifier::ext_equal]
pub ghost struct FrameView {
    pub left: int,
    pub top: int,
    pub width: int,
    pub height: int,
    pub buffer: Seq<u8>,
    pub delay_ms: int,
}

impl FrameView {
    /// A frame is well formed when its buffer holds exactly four bytes
    /// (RGBA) for each of its `width * height` pixels.
    pub open spec fn wf(self) -> bool {
        &&& 0 <= self.width
        &&& 0 <= self.height
        &&& 0 <= self.delay_ms
        &&& self.buffer.len() == self.width * self.height * 4
    }
}

/// A sequence of `n` zero bytes: a fully transparent pixel buffer.
pub open spec fn zero_bytes(n: nat) -> Seq<u8> {
    Seq::new(n, |i: int| 0u8)
}

/// 255 times the blended output alpha of the Porter-Duff "over" operator,
/// for a source alpha `sa` and a destination alpha `da`, both in 0..=255.
pub open spec fn alpha_num(sa: int, da: int) -> int {
    255 * sa + da * (255 - sa)
}

/// Blended output alpha channel (0..=255) of the "over" operator.
pub open spec fn blend_alpha(sa: int, da: int) -> int {
    alpha_num(sa, da) / 255
}

/// Blended output colour channel of the "over" operator in straight alpha:
/// `(sc*sa + dc*da*(1-sa)) / out_a`, scaled to the 0..=255 byte range with
/// integer division. Meaningful only when `alpha_num(sa, da) > 0`.
pub open spec fn blend_channel(sc: int, sa: int, dc: int, da: int) -> int {
    (sc * sa * 255 + dc * da * (255 - sa)) / alpha_num(sa, da)
}

/// Whether pixel number `p` of a buffer that is `dw` pixels wide lies in
/// the rectangle of width `sw` and height `sh` whose top-left pixel is at
/// `(dx, dy)`.
pub open spec fn pixel_in_region(p: int, dw: int, dx: int, dy: int, sw: int, sh: int) -> bool {
    &&& dx <= p % dw < dx + sw
    &&& dy <= p / dw < dy + sh
}

/// Byte `i` of the result of compositing the source rectangle onto the
/// destination buffer: a blended byte inside the region, the original
/// destination byte outside it. When the blended alpha is zero the
/// destination pixel is left unchanged rather than divided by zero.
pub open spec fn blit_byte(
    dstbuf: Seq<u8>,
    dw: int,
    dx: int,
    dy: int,
    sw: int,
    sh: int,
    src: Seq<u8>,
    i: int,
) -> u8 {
    let p = i / 4;
    let c = i % 4;
    if pixel_in_region(p, dw, dx, dy, sw, sh) {
        let sp = ((p / dw - dy) * sw + (p % dw - dx)) * 4;
        let sa = src[sp + 3] as int;
        let da = dstbuf[p * 4 + 3] as int;
        if alpha_num(sa, da) == 0 {
            dstbuf[i]
        } else if c == 3 {
            blend_alpha(sa, da) as u8
        } else {
            blend_channel(src[sp + c] as int, sa, dstbuf[i] as int, da) as u8
        }
    } else {
        dstbuf[i]
    }
}

/// The destination buffer after the source rectangle has been composited
/// onto it with the Porter-Duff "over" operator, clipped to the
/// destination bounds.
pub open spec fn blit_bytes(
    dstbuf: Seq<u8>,
    dw: int,
    dx: int,
    dy: int,
    sw: int,
    sh: int,
    src: Seq<u8>,
) -> Seq<u8> {
    Seq::new(dstbuf.len(), |i: int| blit_byte(dstbuf, dw, dx, dy, sw, sh, src, i))
}

/// An owned rectangular RGBA8 buffer with a screen position and an
/// intrinsic display duration.
pub struct Frame {
    /// Horizontal offset of the left edge, measured from the left edge of
    /// the canvas; may be negative.
    pub left: i32,
    /// Vertical offset of the top edge, measured from the top edge of the
    /// canvas; may be negative.
    pub top: i32,
    /// Width in pixels.
    pub width: u32,
    /// Height in pixels.
    pub height: u32,
    /// Straight (non-premultiplied) RGBA bytes, row-major, four bytes per
    /// pixel.
    pub buffer: Vec<u8>,
    /// Display duration in milliseconds; 0 means "static".
    pub delay_ms: u128,
}

impl View for Frame {
    type V = FrameView;

    open spec fn view(&self) -> FrameView {
        FrameView {
            left: self.left as int,
            top: self.top as int,
            width: self.width as int,
            height: self.height as int,
            buffer: self.buffer@,
            delay_ms: self.delay_ms as int,
        }
    }
}

impl Frame {
    /// Whether the buffer length matches the frame's dimensions.
    pub open spec fn wf(&self) -> bool {
        self@.wf()
    }

    /// A zero-filled (fully transparent) frame of the given size.
    pub fn new(left: i32, top: i32, width: u32, height: u32, delay_ms: u128) -> (frame: Frame)
        requires
            width * height * 4 <= usize::MAX,
        ensures
            frame.wf(),
            frame@.left == left as int,
            frame@.top == top as int,
            frame@.width == width as int,
            frame@.height == height as int,
            frame@.delay_ms == delay_ms as int,
            frame@.buffer == zero_bytes((width * height * 4) as nat),
    {
        let n: usize = (width as usize) * (height as usize) * 4;
        let mut buffer: Vec<u8> = Vec::new();
        while buffer.len() < n
            invariant
                buffer@.len() <= n,
                forall|i: int| 0 <= i < buffer@.len() ==> buffer@[i] == 0u8,
            decreases n - buffer@.len(),
        {
            buffer.push(0u8);
        }
        proof {
            assert(buffer@ =~= zero_bytes((width * height * 4) as nat));
        }
        Frame { left, top, width, height, buffer, delay_ms }
    }

    /// A frame holding a copy of the given RGBA bytes, which must hold
    /// exactly four bytes per pixel.
    pub fn from_bytes(
        left: i32,
        top: i32,
        width: u32,
        height: u32,
        pixels: &[u8],
        delay_ms: u128,
    ) -> (frame: Frame)
        requires
            pixels@.len() == width * height * 4,
        ensures
            frame.wf(),
            frame@.left == left as int,
            frame@.top == top as int,
            frame@.width == width as int,
            frame@.height == height as int,
            frame@.delay_ms == delay_ms as int,
            frame@.buffer == pixels@,
    {
        let n: usize = pixels.len();
        let mut buffer: Vec<u8> = Vec::new();
        let mut i: usize = 0;
        while i < n
            invariant
                n == pixels@.len(),
                i <= n,
                buffer@ == pixels@.take(i as int),
            decreases n - i,
        {
            buffer.push(pixels[i]);
            proof {
                assert(buffer@ =~= pixels@.take(i + 1 as int));
            }
            i = i + 1;
        }
        proof {
            assert(buffer@ =~= pixels@);
        }
        Frame { left, top, width, height, buffer, delay_ms }
    }

    /// Fill the buffer with zero bytes (fully transparent black), in place.
    pub fn clear(&mut self)
        ensures
            final(self)@.left == old(self)@.left,
            final(self)@.top == old(self)@.top,
            final(self)@.width == old(self)@.width,
            final(self)@.height == old(self)@.height,
            final(self)@.delay_ms == old(self)@.delay_ms,
            final(self)@.buffer == zero_bytes(old(self)@.buffer.len()),
    {
        let n: usize = self.buffer.len();
        let mut i: usize = 0;
        while i < n
            invariant
                n == self.buffer@.len(),
                i <= n,
                self.left == old(self).left,
                self.top == old(self).top,
                self.width == old(self).width,
                self.height == old(self).height,
                self.delay_ms == old(self).delay_ms,
                forall|j: int| 0 <= j < i ==> self.buffer@[j] == 0u8,
            decreases n - i,
        {
            self.buffer[i] = 0u8;
            i = i + 1;
        }
        proof {
            assert(self.buffer@ =~= zero_bytes(old(self)@.buffer.len()));
        }
    }

    /// Composite a source RGBA region onto this frame at destination
    /// offset `(dst_x, dst_y)` using the Porter-Duff "over" operator,
    /// clipping any part of the source that falls outside this frame.
    #[verifier::loop_isolation(false)]
    pub fn blit(
        &mut self,
        dst_x: i32,
        dst_y: i32,
        src_width: u32,
        src_height: u32,
        src_pixels: &[u8],
    )
        requires
            old(self).wf(),
            src_pixels@.len() == src_width * src_height * 4,
        ensures
            final(self).wf(),
            final(self)@.left == old(self)@.left,
            final(self)@.top == old(self)@.top,
            final(self)@.width == old(self)@.width,
            final(self)@.height == old(self)@.height,
            final(self)@.delay_ms == old(self)@.delay_ms,
            final(self)@.buffer == blit_bytes(
                old(self)@.buffer,
                old(self)@.width,
                dst_x as int,
                dst_y as int,
                src_width as int,
                src_height as int,
                src_pixels@,
            ),
    {
        let blen: usize = self.buffer.len();
        let slen: usize = src_pixels.len();
        let ghost obuf: Seq<u8> = self.buffer@;
        let ghost gw: int = self.width as int;
        let ghost gdx: int = dst_x as int;
        let ghost gdy: int = dst_y as int;
        let ghost gsw: int = src_width as int;
        let ghost gsh: int = src_height as int;
        let w: i64 = self.width as i64;
        let h: i64 = self.height as i64;
        let dx: i64 = dst_x as i64;
        let dy: i64 = dst_y as i64;
        let sw: i64 = src_width as i64;
        let sh: i64 = src_height as i64;
        let x0: i64 = if dx > 0 { dx } else { 0 };
        let y0: i64 = if dy > 0 { dy } else { 0 };
        let x1: i64 = if dx + sw < w { dx + sw } else { w };
        let y1: i64 = if dy + sh < h { dy + sh } else { h };
        let mut y: i64 = y0;
        while y < y1
            invariant
                y0 <= y,
                y <= y1 || y == y0,
                self.left == old(self).left,
                self.top == old(self).top,
                self.width == old(self).width,
                self.height == old(self).height,
                self.delay_ms == old(self).delay_ms,
                self.buffer@.len() == obuf.len(),
                forall|i: int|
                    0 <= i < obuf.len() ==> self.buffer@[i] == (
                    if pixel_in_region(i / 4, gw, gdx, gdy, gsw, gsh) && i / 4 / gw < y {
                        blit_byte(obuf, gw, gdx, gdy, gsw, gsh, src_pixels@, i)
                    } else {
                        obuf[i]
                    }),
            decreases y1 - y,
        {
            let mut x: i64 = x0;
            while x < x1
                invariant
                    y0 <= y < y1,
                    x0 <= x,
                    x <= x1 || x == x0,
                    self.left == old(self).left,
                    self.top == old(self).top,
                    self.width == old(self).width,
                    self.height == old(self).height,
                    self.delay_ms == old(self).delay_ms,
                    self.buffer@.len() == obuf.len(),
                    forall|i: int|
                        0 <= i < obuf.len() ==> self.buffer@[i] == (
                        if pixel_in_region(i / 4, gw, gdx, gdy, gsw, gsh) && (i / 4 / gw < y || (
                        i / 4 / gw == y && i / 4 % gw < x)) {
                            blit_byte(obuf, gw, gdx, gdy, gsw, gsh, src_pixels@, i)
                        } else {
                            obuf[i]
                        }),
                decreases x1 - x,
            {
                let ghost buf0: Seq<u8> = self.buffer@;
                let ghost p: int = y * gw + x;
                proof {
                    assert(0 <= x < w && 0 <= y < h);
                    assert(p * 4 + 4 <= gw * (h as int) * 4) by (nonlinear_arith)
                        requires
                            p == y * gw + x,
                            0 <= x < gw,
                            0 <= y < h as int,
                    ;
                    lemma_fundamental_div_mod_converse_div(p, gw, y as int, x as int);
                    lemma_fundamental_div_mod_converse_mod(p, gw, y as int, x as int);
                    assert((y - dy) * gsw + (x - dx) >= 0 && ((y - dy) * gsw + (x - dx)) * 4 + 4
                        <= gsw * gsh * 4) by (nonlinear_arith)
                        requires
                            gdx <= (x as int) && (x as int) < gdx + gsw,
                            gdy <= (y as int) && (y as int) < gdy + gsh,
                            gdx == dx as int,
                            gdy == dy as int,
                            gsw == sw as int,
                            gsh == sh as int,
                    ;
                }
                let di: usize = (((y as u64) * (w as u64) + (x as u64)) * 4) as usize;
                let si: usize = ((((y - dy) as u64) * (sw as u64) + ((x - dx) as u64)) * 4) as usize;
                let sr = src_pixels[si] as u32;
                let sg = src_pixels[si + 1] as u32;
                let sb = src_pixels[si + 2] as u32;
                let sa = src_pixels[si + 3] as u32;
                let dr = self.buffer[di] as u32;
                let dg = self.buffer[di + 1] as u32;
                let db = self.buffer[di + 2] as u32;
                let da = self.buffer[di + 3] as u32;
                proof {
                    lemma_blend_bounds(sr as int, sa as int, dr as int, da as int);
                    lemma_blend_bounds(sg as int, sa as int, dg as int, da as int);
                    lemma_blend_bounds(sb as int, sa as int, db as int, da as int);
                }
                let an: u32 = 255 * sa + da * (255 - sa);
                if an != 0 {
                    let or_: u32 = (sr * sa * 255 + dr * da * (255 - sa)) / an;
                    let og: u32 = (sg * sa * 255 + dg * da * (255 - sa)) / an;
                    let ob: u32 = (sb * sa * 255 + db * da * (255 - sa)) / an;
                    let oa: u32 = an / 255;
                    self.buffer[di] = or_ as u8;
                    self.buffer[di + 1] = og as u8;
                    self.buffer[di + 2] = ob as u8;
                    self.buffer[di + 3] = oa as u8;
                }
                proof {
                    assert(pixel_in_region(p, gw, gdx, gdy, gsw, gsh));
                    assert forall|i: int| 0 <= i < obuf.len() implies self.buffer@[i] == (
                        if pixel_in_region(i / 4, gw, gdx, gdy, gsw, gsh) && (i / 4 / gw < y || (
                        i / 4 / gw == y && i / 4 % gw < x + 1)) {
                            blit_byte(obuf, gw, gdx, gdy, gsw, gsh, src_pixels@, i)
                        } else {
                            obuf[i]
                        }) by {
                        vstd::arithmetic::div_mod::lemma_fundamental_div_mod(i, 4);
                        vstd::arithmetic::div_mod::lemma_mod_bound(i, 4);
                        let q = i / 4;
                        let c = i % 4;
                        vstd::arithmetic::div_mod::lemma_fundamental_div_mod(q, gw);
                        vstd::arithmetic::div_mod::lemma_mod_bound(q, gw);
                        if q == p {
                            assert(p * 4 <= i < p * 4 + 4);
                            assert(q / gw == y as int && q % gw == x as int);
                            assert(buf0[p * 4 + 3] == obuf[p * 4 + 3]);
                            assert(buf0[i] == obuf[i]);
                        } else {
                            assert(!(p * 4 <= i < p * 4 + 4));
                            assert(self.buffer@[i] == buf0[i]);
                            if q / gw == y as int && q % gw == x as int {
                                assert(q == gw * (q / gw) + q % gw);
                                assert(gw * (y as int) == (y as int) * gw) by (nonlinear_arith);
                                assert(q == p);
                            }
                        }
                    }
                }
                x = x + 1;
            }
            y = y + 1;
        }
        proof {
            assert forall|i: int| 0 <= i < obuf.len() implies self.buffer@[i] == blit_byte(
                obuf,
                gw,
                gdx,
                gdy,
                gsw,
                gsh,
                src_pixels@,
                i,
            ) by {
                let p = i / 4;
                assert(0 <= p < gw * (self.height as int)) by (nonlinear_arith)
                    requires
                        0 <= i < obuf.len(),
                        obuf.len() == gw * (self.height as int) * 4,
                        p == i / 4,
                ;
                if gw > 0 {
                    assert(0 <= p % gw < gw);
                    assert(0 <= p / gw < self.height as int) by (nonlinear_arith)
                        requires
                            0 <= p < gw * (self.height as int),
                            gw > 0,
                    ;
                }
            }
            assert(self.buffer@ =~= blit_bytes(
                obuf,
                gw,
                gdx,
                gdy,
                gsw,
                gsh,
                src_pixels@,
            ));
        }
    }
}

/// Byte `p * 4 + c` of a composited buffer is `blit_byte` at that index,
/// whose pixel number is `p` and whose channel is `c`.
proof fn lemma_blit_byte_unfold(
    dstbuf: Seq<u8>,
    dw: int,
    dx: int,
    dy: int,
    sw: int,
    sh: int,
    src: Seq<u8>,
    p: int,
    c: int,
)
    requires
        0 <= c < 4,
        0 <= p,
        p * 4 + 4 <= dstbuf.len(),
    ensures
        (p * 4 + c) / 4 == p,
        (p * 4 + c) % 4 == c,
        blit_bytes(dstbuf, dw, dx, dy, sw, sh, src)[p * 4 + c] == blit_byte(
            dstbuf,
            dw,
            dx,
            dy,
            sw,
            sh,
            src,
            p * 4 + c,
        ),
{
    lemma_fundamental_div_mod_converse_div(p * 4 + c, 4, p, c);
    lemma_fundamental_div_mod_converse_mod(p * 4 + c, 4, p, c);
}

/// Compositing a fully opaque source pixel (alpha 255) onto any
/// destination yields exactly the source colour and full opacity.
pub proof fn lemma_blit_opaque_pixel(
    dstbuf: Seq<u8>,
    dw: int,
    dx: int,
    dy: int,
    sw: int,
    sh: int,
    src: Seq<u8>,
    p: int,
)
    requires
        0 <= p,
        p * 4 + 4 <= dstbuf.len(),
        pixel_in_region(p, dw, dx, dy, sw, sh),
        ((p / dw - dy) * sw + (p % dw - dx)) * 4 + 4 <= src.len(),
        0 <= (p / dw - dy) * sw + (p % dw - dx),
        src[((p / dw - dy) * sw + (p % dw - dx)) * 4 + 3] == 255,
    ensures
        blit_bytes(dstbuf, dw, dx, dy, sw, sh, src)[p * 4] == src[((p / dw - dy) * sw + (p % dw
            - dx)) * 4],
        blit_bytes(dstbuf, dw, dx, dy, sw, sh, src)[p * 4 + 1] == src[((p / dw - dy) * sw + (p
            % dw - dx)) * 4 + 1],
        blit_bytes(dstbuf, dw, dx, dy, sw, sh, src)[p * 4 + 2] == src[((p / dw - dy) * sw + (p
            % dw - dx)) * 4 + 2],
        blit_bytes(dstbuf, dw, dx, dy, sw, sh, src)[p * 4 + 3] == 255,
{
    let sp = ((p / dw - dy) * sw + (p % dw - dx)) * 4;
    let da = dstbuf[p * 4 + 3] as int;
    assert(alpha_num(255, da) == 65025);
    lemma_blit_byte_unfold(dstbuf, dw, dx, dy, sw, sh, src, p, 0);
    assert(blit_bytes(dstbuf, dw, dx, dy, sw, sh, src)[p * 4 + 0] == src[sp + 0]) by {
        let sc = src[sp + 0] as int;
        assert(sc * 255 * 255 + (dstbuf[p * 4 + 0] as int) * da * (255 - 255) == sc * 65025)
            by (nonlinear_arith);
        vstd::arithmetic::div_mod::lemma_div_by_multiple(sc, 65025);
        assert(blend_channel(sc, 255, dstbuf[p * 4 + 0] as int, da) == sc);
    }
    lemma_blit_byte_unfold(dstbuf, dw, dx, dy, sw, sh, src, p, 1);
    assert(blit_bytes(dstbuf, dw, dx, dy, sw, sh, src)[p * 4 + 1] == src[sp + 1]) by {
        let sc = src[sp + 1] as int;
        assert(sc * 255 * 255 + (dstbuf[p * 4 + 1] as int) * da * (255 - 255) == sc * 65025)
            by (nonlinear_arith);
        vstd::arithmetic::div_mod::lemma_div_by_multiple(sc, 65025);
        assert(blend_channel(sc, 255, dstbuf[p * 4 + 1] as int, da) == sc);
    }
    lemma_blit_byte_unfold(dstbuf, dw, dx, dy, sw, sh, src, p, 2);
    assert(blit_bytes(dstbuf, dw, dx, dy, sw, sh, src)[p * 4 + 2] == src[sp + 2]) by {
        let sc = src[sp + 2] as int;
        assert(sc * 255 * 255 + (dstbuf[p * 4 + 2] as int) * da * (255 - 255) == sc * 65025)
            by (nonlinear_arith);
        vstd::arithmetic::div_mod::lemma_div_by_multiple(sc, 65025);
        assert(blend_channel(sc, 255, dstbuf[p * 4 + 2] as int, da) == sc);
    }
    lemma_blit_byte_unfold(dstbuf, dw, dx, dy, sw, sh, src, p, 3);
    assert(blit_bytes(dstbuf, dw, dx, dy, sw, sh, src)[p * 4 + 3] == 255u8) by {
        vstd::arithmetic::div_mod::lemma_div_by_multiple(255, 255);
        assert(blend_alpha(255, da) == (255 * 255) / 255);
    }
    assert(blit_bytes(dstbuf, dw, dx, dy, sw, sh, src)[p * 4] == src[sp]);
}

/// Compositing a fully transparent source pixel (alpha 0) onto any
/// destination leaves the destination pixel's bytes unchanged.
pub proof fn lemma_blit_transparent_pixel(
    dstbuf: Seq<u8>,
    dw: int,
    dx: int,
    dy: int,
    sw: int,
    sh: int,
    src: Seq<u8>,
    p: int,
)
    requires
        0 <= p,
        p * 4 + 4 <= dstbuf.len(),
        pixel_in_region(p, dw, dx, dy, sw, sh),
        ((p / dw - dy) * sw + (p % dw - dx)) * 4 + 4 <= src.len(),
        0 <= (p / dw - dy) * sw + (p % dw - dx),
        src[((p / dw - dy) * sw + (p % dw - dx)) * 4 + 3] == 0,
    ensures
        blit_bytes(dstbuf, dw, dx, dy, sw, sh, src)[p * 4] == dstbuf[p * 4],
        blit_bytes(dstbuf, dw, dx, dy, sw, sh, src)[p * 4 + 1] == dstbuf[p * 4 + 1],
        blit_bytes(dstbuf, dw, dx, dy, sw, sh, src)[p * 4 + 2] == dstbuf[p * 4 + 2],
        blit_bytes(dstbuf, dw, dx, dy, sw, sh, src)[p * 4 + 3] == dstbuf[p * 4 + 3],
{
    let sp = ((p / dw - dy) * sw + (p % dw - dx)) * 4;
    let da = dstbuf[p * 4 + 3] as int;
    assert(alpha_num(0, da) == da * 255);
    lemma_blit_byte_unfold(dstbuf, dw, dx, dy, sw, sh, src, p, 0);
    assert(blit_bytes(dstbuf, dw, dx, dy, sw, sh, src)[p * 4 + 0] == dstbuf[p * 4 + 0]) by {
        if da > 0 {
            assert(da * 255 > 0) by (nonlinear_arith)
                requires
                    da > 0,
            ;
            let dc = dstbuf[p * 4 + 0] as int;
            assert((src[sp + 0] as int) * 0 * 255 + dc * da * (255 - 0) == dc * (da * 255))
                by (nonlinear_arith);
            vstd::arithmetic::div_mod::lemma_div_by_multiple(dc, da * 255);
            assert(blend_channel(src[sp + 0] as int, 0, dc, da) == dc);
        }
    }
    lemma_blit_byte_unfold(dstbuf, dw, dx, dy, sw, sh, src, p, 1);
    assert(blit_bytes(dstbuf, dw, dx, dy, sw, sh, src)[p * 4 + 1] == dstbuf[p * 4 + 1]) by {
        if da > 0 {
            assert(da * 255 > 0) by (nonlinear_arith)
                requires
                    da > 0,
            ;
            let dc = dstbuf[p * 4 + 1] as int;
            assert((src[sp + 1] as int) * 0 * 255 + dc * da * (255 - 0) == dc * (da * 255))
                by (nonlinear_arith);
            vstd::arithmetic::div_mod::lemma_div_by_multiple(dc, da * 255);
            assert(blend_channel(src[sp + 1] as int, 0, dc, da) == dc);
        }
    }
    lemma_blit_byte_unfold(dstbuf, dw, dx, dy, sw, sh, src, p, 2);
    assert(blit_bytes(dstbuf, dw, dx, dy, sw, sh, src)[p * 4 + 2] == dstbuf[p * 4 + 2]) by {
        if da > 0 {
            assert(da * 255 > 0) by (nonlinear_arith)
                requires
                    da > 0,
            ;
            let dc = dstbuf[p * 4 + 2] as int;
            assert((src[sp + 2] as int) * 0 * 255 + dc * da * (255 - 0) == dc * (da * 255))
                by (nonlinear_arith);
            vstd::arithmetic::div_mod::lemma_div_by_multiple(dc, da * 255);
            assert(blend_channel(src[sp + 2] as int, 0, dc, da) == dc);
        }
    }
    lemma_blit_byte_unfold(dstbuf, dw, dx, dy, sw, sh, src, p, 3);
    assert(blit_bytes(dstbuf, dw, dx, dy, sw, sh, src)[p * 4 + 3] == dstbuf[p * 4 + 3]) by {
        if da > 0 {
            assert(da * 255 > 0) by (nonlinear_arith)
                requires
                    da > 0,
            ;
            vstd::arithmetic::div_mod::lemma_div_by_multiple(da, 255);
            assert(blend_alpha(0, da) == (da * 255) / 255);
        }
    }
    assert(blit_bytes(dstbuf, dw, dx, dy, sw, sh, src)[p * 4] == dstbuf[p * 4]);
}

/// The blended output alpha and every blended output colour channel of
/// the integer "over" operator fit in a byte.
pub proof fn lemma_blend_bounds(sc: int, sa: int, dc: int, da: int)
    requires
        0 <= sc <= 255,
        0 <= sa <= 255,
        0 <= dc <= 255,
        0 <= da <= 255,
    ensures
        0 <= alpha_num(sa, da) <= 65025,
        0 <= blend_alpha(sa, da) <= 255,
        alpha_num(sa, da) > 0 ==> 0 <= blend_channel(sc, sa, dc, da) <= 255,
        0 <= sc * sa <= 65025,
        0 <= sc * sa * 255 <= 16581375,
        0 <= dc * da <= 65025,
        0 <= dc * da * (255 - sa) <= 16581375,
        0 <= sc * sa * 255 + dc * da * (255 - sa) <= 33162750,
{
    let an = alpha_num(sa, da);
    assert(0 <= an <= 65025 && 0 <= sc * sa <= 65025 && 0 <= sc * sa * 255 <= 16581375 && 0 <= dc
        * da <= 65025 && 0 <= dc * da * (255 - sa) <= 16581375 && 0 <= sc * sa * 255 + dc * da * (
    255 - sa) <= 255 * an <= 33162750) by (nonlinear_arith)
        requires
            0 <= sc <= 255,
            0 <= sa <= 255,
            0 <= dc <= 255,
            0 <= da <= 255,
            an == alpha_num(sa, da),
    ;
    lemma_div_pos_is_pos(an, 255);
    lemma_multiply_divide_le(an, 255, 255);
    if an > 0 {
        let num = sc * sa * 255 + dc * da * (255 - sa);
        lemma_div_pos_is_pos(num, an);
        lemma_multiply_divide_le(num, an, 255);
    }
}

} // verus!
