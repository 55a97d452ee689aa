use splash_screen::frame::Frame;
use splash_screen::overlay::{AnimatedOverlay, Overlay};

fn overlay_with_delays(delays: &[u128], start: u128) -> AnimatedOverlay {
    let mut frames = Vec::new();
    for (i, &d) in delays.iter().enumerate() {
        let shade = (i as u8 + 1) * 10;
        frames.push(Frame::from_bytes(0, 0, 1, 1, &[shade, 0, 0, 255], d));
    }
    AnimatedOverlay::new(frames, 0, start)
}

#[test]
fn animation_cycle_walks_and_wraps() {
    // Delays [100, 150, 50], total 300, anchored at 0.
    let o = overlay_with_delays(&[100, 150, 50], 0);
    assert_eq!(o.current_frame_index(0), 0);
    assert_eq!(o.time_remaining_on_current_frame(0), Some(100));
    assert_eq!(o.current_frame_index(120), 1);
    assert_eq!(o.time_remaining_on_current_frame(120), Some(130));
    assert_eq!(o.current_frame_index(275), 2);
    assert_eq!(o.time_remaining_on_current_frame(275), Some(25));
    // Wraps exactly at the period boundary.
    assert_eq!(o.current_frame_index(300), 0);
    assert_eq!(o.time_remaining_on_current_frame(300), Some(100));
}

#[test]
fn animation_repeats_every_period() {
    let o = overlay_with_delays(&[100, 150, 50], 0);
    for t in [0u128, 37, 120, 249, 275, 299] {
        assert_eq!(o.current_frame_index(t), o.current_frame_index(t + 300));
        assert_eq!(
            o.time_remaining_on_current_frame(t),
            o.time_remaining_on_current_frame(t + 300)
        );
    }
}

#[test]
fn animation_before_start_shows_first_frame() {
    // Timestamps before the anchor saturate to elapsed 0.
    let o = overlay_with_delays(&[100, 150, 50], 1000);
    assert_eq!(o.current_frame_index(400), 0);
    assert_eq!(o.time_remaining_on_current_frame(400), Some(100));
    assert_eq!(o.current_frame_index(1100), 1);
}

#[test]
fn zero_period_animation_is_static() {
    let o = overlay_with_delays(&[0, 0], 0);
    assert_eq!(o.current_frame_index(12345), 0);
    assert_eq!(o.time_remaining_on_current_frame(12345), None);
    assert_eq!(o.time_to_next_frame_ms(12345), None);
}

#[test]
fn empty_animation_never_requests_redraws() {
    let o = AnimatedOverlay::new(Vec::new(), 3, 0);
    assert_eq!(o.current_frame_index(7), 0);
    assert_eq!(o.time_to_next_frame_ms(7), None);
    assert_eq!(o.z_index(), 3);
}

#[test]
fn draw_blits_the_active_frame() {
    let o = overlay_with_delays(&[100, 150, 50], 0);
    let mut canvas = Frame::new(0, 0, 1, 1, 0);
    o.draw(&mut canvas, 120);
    // Frame 1 carries shade 20.
    assert_eq!(&canvas.buffer[0..4], &[20u8, 0, 0, 255]);
    o.draw(&mut canvas, 0);
    assert_eq!(&canvas.buffer[0..4], &[10u8, 0, 0, 255]);
}
