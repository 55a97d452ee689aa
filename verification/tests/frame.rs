use splash_screen::frame::Frame;

#[test]
fn new_frame_is_transparent() {
    let f = Frame::new(3, -4, 2, 3, 7);
    assert_eq!(f.left, 3);
    assert_eq!(f.top, -4);
    assert_eq!(f.width, 2);
    assert_eq!(f.height, 3);
    assert_eq!(f.delay_ms, 7);
    assert_eq!(f.buffer.len(), 24);
    assert!(f.buffer.iter().all(|&b| b == 0));
}

#[test]
fn from_bytes_copies_pixels() {
    let pixels = vec![1u8, 2, 3, 4, 5, 6, 7, 8];
    let f = Frame::from_bytes(-1, 2, 2, 1, &pixels, 9);
    assert_eq!(f.buffer, pixels);
    assert_eq!(f.width, 2);
    assert_eq!(f.height, 1);
    assert_eq!(f.delay_ms, 9);
}

#[test]
fn clear_zeroes_in_place() {
    let mut f = Frame::from_bytes(0, 0, 1, 1, &[9, 8, 7, 6], 0);
    f.clear();
    assert_eq!(f.buffer, vec![0u8, 0, 0, 0]);
    assert_eq!(f.width, 1);
    assert_eq!(f.height, 1);
}

#[test]
fn blit_opaque_source_replaces_destination() {
    // An opaque source pixel wins over any destination pixel.
    let mut dst = Frame::from_bytes(0, 0, 1, 1, &[10, 20, 30, 40], 0);
    dst.blit(0, 0, 1, 1, &[200, 100, 50, 255]);
    assert_eq!(dst.buffer, vec![200u8, 100, 50, 255]);
}

#[test]
fn blit_transparent_source_leaves_destination() {
    // A fully transparent source pixel leaves the destination unchanged.
    let mut dst = Frame::from_bytes(0, 0, 1, 1, &[10, 20, 30, 40], 0);
    dst.blit(0, 0, 1, 1, &[200, 100, 50, 0]);
    assert_eq!(dst.buffer, vec![10u8, 20, 30, 40]);
}

#[test]
fn blit_blends_half_transparent_source() {
    // src (200,40,60,128) over dst (100,20,30,255), computed in
    // integer straight alpha:
    //   an    = 255*128 + 255*(255-128) = 65025
    //   out_r = (200*128*255 + 100*255*127) / 65025 = 150
    //   out_g = (40*128*255  + 20*255*127)  / 65025 = 30
    //   out_b = (60*128*255  + 30*255*127)  / 65025 = 45
    //   out_a = 65025 / 255 = 255
    let mut dst = Frame::from_bytes(0, 0, 1, 1, &[100, 20, 30, 255], 0);
    dst.blit(0, 0, 1, 1, &[200, 40, 60, 128]);
    assert_eq!(dst.buffer, vec![150u8, 30, 45, 255]);
}

#[test]
fn blit_on_transparent_destination_keeps_source() {
    // src with partial alpha onto a fully transparent destination:
    //   an    = 255*128 + 0 = 32640
    //   out_c = (c*128*255) / 32640 = c
    //   out_a = 32640 / 255 = 128
    let mut dst = Frame::new(0, 0, 1, 1, 0);
    dst.blit(0, 0, 1, 1, &[200, 40, 60, 128]);
    assert_eq!(dst.buffer, vec![200u8, 40, 60, 128]);
}

#[test]
fn blit_zero_alpha_everywhere_stays_transparent() {
    // Both source and destination fully transparent: the pixel is left
    // untouched rather than divided by zero.
    let mut dst = Frame::new(0, 0, 1, 1, 0);
    dst.blit(0, 0, 1, 1, &[200, 40, 60, 0]);
    assert_eq!(dst.buffer, vec![0u8, 0, 0, 0]);
}

#[test]
fn blit_clips_negative_offsets() {
    // A 2x2 source at (-1,-1): only its bottom-right pixel lands on the
    // 2x2 canvas, at (0,0).
    let mut dst = Frame::new(0, 0, 2, 2, 0);
    let src = vec![
        1u8, 1, 1, 255, 2, 2, 2, 255, // row 0
        3, 3, 3, 255, 9, 8, 7, 255, // row 1
    ];
    dst.blit(-1, -1, 2, 2, &src);
    assert_eq!(&dst.buffer[0..4], &[9u8, 8, 7, 255]);
    assert!(dst.buffer[4..].iter().all(|&b| b == 0));
}

#[test]
fn blit_clips_overhang_past_edges() {
    // A 2x1 source at (1,0) on a 2x1 canvas: only the left source pixel
    // fits, at (1,0).
    let mut dst = Frame::new(0, 0, 2, 1, 0);
    dst.blit(1, 0, 2, 1, &[5, 6, 7, 255, 1, 2, 3, 255]);
    assert_eq!(&dst.buffer[0..4], &[0u8, 0, 0, 0]);
    assert_eq!(&dst.buffer[4..8], &[5u8, 6, 7, 255]);
}

#[test]
fn blit_fully_outside_changes_nothing() {
    let mut dst = Frame::from_bytes(0, 0, 1, 1, &[1, 2, 3, 4], 0);
    dst.blit(5, 5, 1, 1, &[200, 200, 200, 255]);
    assert_eq!(dst.buffer, vec![1u8, 2, 3, 4]);
}
