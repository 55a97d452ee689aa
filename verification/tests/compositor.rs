use splash_screen::compositor::Compositor;
use splash_screen::frame::Frame;
use splash_screen::overlay::{AnimatedOverlay, AnyOverlay, ImageOverlay, Overlay, TextOverlay};

fn solid_frame(left: i32, top: i32, w: u32, h: u32, rgba: [u8; 4]) -> Frame {
    let mut pixels = Vec::new();
    for _ in 0..(w * h) {
        pixels.extend_from_slice(&rgba);
    }
    Frame::from_bytes(left, top, w, h, &pixels, 0)
}

fn image_overlay(left: i32, top: i32, w: u32, h: u32, rgba: [u8; 4], z: u32) -> AnyOverlay {
    AnyOverlay::Image(ImageOverlay::new(solid_frame(left, top, w, h, rgba), z))
}

#[test]
fn new_compositor_has_empty_canvas() {
    let mut c = Compositor::new(2, 2);
    assert_eq!(c.canvas.width, 2);
    assert_eq!(c.canvas.height, 2);
    let frame = c.render(0);
    assert_eq!(frame.buffer.len(), 16);
    assert!(frame.buffer.iter().all(|&b| b == 0));
}

#[test]
fn z_order_higher_index_paints_on_top() {
    // Two fully opaque, fully overlapping overlays with z_index 10 and
    // 20: the rendered region shows the z_index 20 colour, whichever
    // order they were added in.
    let red = [255u8, 0, 0, 255];
    let blue = [0u8, 0, 255, 255];
    for add_blue_first in [false, true] {
        let mut c = Compositor::new(2, 2);
        let low = image_overlay(0, 0, 2, 2, red, 10);
        let high = image_overlay(0, 0, 2, 2, blue, 20);
        if add_blue_first {
            c.add_overlay(high);
            c.add_overlay(low);
        } else {
            c.add_overlay(low);
            c.add_overlay(high);
        }
        let frame = c.render(0);
        for p in 0..4 {
            assert_eq!(&frame.buffer[p * 4..p * 4 + 4], &blue);
        }
    }
}

#[test]
fn equal_z_keeps_insertion_order() {
    // Two overlays sharing a z_index partially overlap: where they
    // overlap, the one added later wins; elsewhere each shows its own
    // colour.
    let red = [255u8, 0, 0, 255];
    let blue = [0u8, 0, 255, 255];
    let mut c = Compositor::new(2, 1);
    c.add_overlay(image_overlay(0, 0, 2, 1, red, 5)); // covers both pixels
    c.add_overlay(image_overlay(0, 0, 1, 1, blue, 5)); // covers pixel 0
    let frame = c.render(0);
    assert_eq!(&frame.buffer[0..4], &blue);
    assert_eq!(&frame.buffer[4..8], &red);
}

#[test]
fn render_is_deterministic() {
    let mut c = Compositor::new(3, 2);
    c.add_overlay(image_overlay(0, 0, 2, 2, [10, 20, 30, 200], 7));
    c.add_overlay(image_overlay(1, 0, 2, 1, [200, 100, 0, 128], 3));
    let a1 = AnimatedOverlay::new(
        vec![
            Frame::from_bytes(0, 1, 1, 1, &[1, 2, 3, 255], 40),
            Frame::from_bytes(0, 1, 1, 1, &[4, 5, 6, 255], 60),
        ],
        9,
        0,
    );
    c.add_overlay(AnyOverlay::Animated(a1));
    let first = c.render(55).buffer.clone();
    let second = c.render(55).buffer.clone();
    assert_eq!(first, second);
}

#[test]
fn text_overlay_draws_like_a_static_image() {
    let mut c = Compositor::new(1, 1);
    let t = TextOverlay::new(solid_frame(0, 0, 1, 1, [9, 9, 9, 255]), 1);
    assert_eq!(t.z_index(), 1);
    assert_eq!(t.time_to_next_frame_ms(12345), None);
    c.add_overlay(AnyOverlay::Text(t));
    let frame = c.render(99);
    assert_eq!(&frame.buffer[0..4], &[9u8, 9, 9, 255]);
}

#[test]
fn wait_time_is_none_for_fully_static_scene() {
    // None if and only if every overlay reports None.
    let mut c = Compositor::new(1, 1);
    assert_eq!(c.time_until_next_frame_ms(0), None);
    c.add_overlay(image_overlay(0, 0, 1, 1, [1, 1, 1, 255], 0));
    c.add_overlay(AnyOverlay::Text(TextOverlay::new(
        solid_frame(0, 0, 1, 1, [2, 2, 2, 255]),
        4,
    )));
    assert_eq!(c.time_until_next_frame_ms(0), None);
    c.add_overlay(AnyOverlay::Animated(AnimatedOverlay::new(
        vec![
            Frame::from_bytes(0, 0, 1, 1, &[0, 0, 0, 0], 100),
            Frame::from_bytes(0, 0, 1, 1, &[0, 0, 0, 0], 50),
        ],
        0,
        0,
    )));
    assert_eq!(c.time_until_next_frame_ms(0), Some(100));
}

#[test]
fn wait_time_is_minimum_over_overlays() {
    let mut c = Compositor::new(1, 1);
    c.add_overlay(AnyOverlay::Animated(AnimatedOverlay::new(
        vec![
            Frame::from_bytes(0, 0, 1, 1, &[0, 0, 0, 0], 300),
            Frame::from_bytes(0, 0, 1, 1, &[0, 0, 0, 0], 300),
        ],
        0,
        0,
    )));
    c.add_overlay(AnyOverlay::Animated(AnimatedOverlay::new(
        vec![
            Frame::from_bytes(0, 0, 1, 1, &[0, 0, 0, 0], 80),
            Frame::from_bytes(0, 0, 1, 1, &[0, 0, 0, 0], 40),
        ],
        0,
        0,
    )));
    // At t=0 the first overlay needs a redraw in 300 ms, the second in
    // 80 ms: the compositor reports the minimum.
    assert_eq!(c.time_until_next_frame_ms(0), Some(80));
    // An overlay with only zero delays is treated as static.
    c.add_overlay(AnyOverlay::Animated(AnimatedOverlay::new(
        vec![Frame::from_bytes(0, 0, 1, 1, &[0, 0, 0, 0], 0)],
        0,
        0,
    )));
    assert_eq!(c.time_until_next_frame_ms(0), Some(80));
}

#[test]
fn semi_transparent_overlays_blend_in_paint_order() {
    // A half-transparent white over an opaque black canvas pixel:
    //   an    = 255*128 + 255*127 = 65025
    //   out_c = (255*128*255 + 0) / 65025 = 128
    let mut c = Compositor::new(1, 1);
    c.add_overlay(image_overlay(0, 0, 1, 1, [0, 0, 0, 255], 1));
    c.add_overlay(image_overlay(0, 0, 1, 1, [255, 255, 255, 128], 2));
    let frame = c.render(0);
    assert_eq!(&frame.buffer[0..4], &[128u8, 128, 128, 255]);
}
