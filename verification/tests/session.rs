use splash_screen::compositor::{add_overlays_from_message, Compositor};
use splash_screen::frame::Frame;
use splash_screen::message::overlay::{DisplayOptions, Overlay};
use splash_screen::message::server::ServerMessageType;
use splash_screen::network::WSClient;
use splash_screen::overlay::text::write_text_pixel;
use splash_screen::rendering::rgba_to_premultiplied_bgra;

fn png_bytes(w: u32, h: u32, rgba: [u8; 4]) -> Vec<u8> {
    let img = image::RgbaImage::from_pixel(w, h, image::Rgba(rgba));
    let mut bytes = Vec::new();
    image::DynamicImage::ImageRgba8(img)
        .write_to(&mut std::io::Cursor::new(&mut bytes), image::ImageFormat::Png)
        .unwrap();
    bytes
}

#[test]
fn overlay_batch_registers_decodable_overlays() {
    let mut c = Compositor::new(2, 1);
    let message = ServerMessageType::Overlays {
        overlays: vec![
            Overlay::Image {
                bytes: png_bytes(1, 1, [200, 0, 0, 255]),
                offset_left: 0,
                offset_top: 0,
                z_index: 1,
            },
            Overlay::Text {
                text: "hi".to_string(),
                size: 12,
                color: [1, 2, 3, 255],
                offset_left: 1,
                offset_top: 0,
                z_index: 2,
            },
            Overlay::Image {
                bytes: b"broken payload".to_vec(),
                offset_left: 0,
                offset_top: 0,
                z_index: 3,
            },
        ],
        options: DisplayOptions { timeout_ms: 3000 },
    };
    // One pre-rasterized frame for the single text descriptor, as the
    // shaping service would hand it over.
    let shaped = vec![Frame::from_bytes(0, 0, 1, 1, &[0, 0, 200, 255], 0)];
    let added = add_overlays_from_message(&mut c, message, 0, shaped);
    // The broken payload is skipped; the other two are registered.
    assert_eq!(added, 2);
    assert_eq!(c.overlays.len(), 2);
    let frame = c.render(0);
    assert_eq!(&frame.buffer[0..4], &[200, 0, 0, 255]);
    assert_eq!(&frame.buffer[4..8], &[0, 0, 200, 255]);
}

#[test]
fn non_overlay_messages_register_nothing() {
    let mut c = Compositor::new(1, 1);
    assert_eq!(add_overlays_from_message(&mut c, ServerMessageType::Fire, 0, Vec::new()), 0);
    assert_eq!(
        add_overlays_from_message(&mut c, ServerMessageType::JoinAccepted, 0, Vec::new()),
        0
    );
    assert_eq!(c.overlays.len(), 0);
}

#[test]
fn ws_client_hands_out_the_message_once() {
    let mut client = WSClient::new(vec![1, 2, 3]);
    assert_eq!(client.recv(), Some(&[1u8, 2, 3][..]));
    assert_eq!(client.recv(), None);
    assert_eq!(client.recv(), None);
}

#[test]
fn premultiplies_and_reorders_channels() {
    // Opaque red RGBA becomes opaque red BGRA.
    assert_eq!(
        rgba_to_premultiplied_bgra(&[255, 0, 0, 255]),
        vec![0, 0, 255, 255]
    );
    // (100,200,50,128): each channel is (c*128 + 127) / 255.
    assert_eq!(
        rgba_to_premultiplied_bgra(&[100, 200, 50, 128]),
        vec![25, 100, 50, 128]
    );
    // A fully transparent pixel becomes all zero.
    assert_eq!(rgba_to_premultiplied_bgra(&[9, 9, 9, 0]), vec![0, 0, 0, 0]);
    // Trailing bytes short of a whole pixel are dropped.
    assert_eq!(
        rgba_to_premultiplied_bgra(&[255, 0, 0, 255, 77, 88]),
        vec![0, 0, 255, 255]
    );
}

#[test]
fn text_pixel_writes_respect_bounds_and_alpha() {
    let mut pixels = vec![0u8; 2 * 2 * 4];
    // In-bounds opaque pixel is written at ((y*width)+x)*4.
    write_text_pixel(&mut pixels, 2, 2, 1, 0, [9, 8, 7, 255]);
    assert_eq!(&pixels[4..8], &[9, 8, 7, 255]);
    // Zero alpha writes nothing.
    write_text_pixel(&mut pixels, 2, 2, 0, 0, [1, 1, 1, 0]);
    assert_eq!(&pixels[0..4], &[0, 0, 0, 0]);
    // Out-of-bounds coordinates write nothing.
    let before = pixels.clone();
    write_text_pixel(&mut pixels, 2, 2, -1, 0, [1, 1, 1, 255]);
    write_text_pixel(&mut pixels, 2, 2, 0, 2, [1, 1, 1, 255]);
    assert_eq!(pixels, before);
}
