use splash_screen::media::decoded::DecodedMedia;
use splash_screen::media::decoder::{sniff_format, DecodeError, MediaDecoder, MediaFormat};
use splash_screen::overlay::{AnimatedOverlay, ImageOverlay};

fn png_bytes(w: u32, h: u32, rgba: [u8; 4]) -> Vec<u8> {
    let img = image::RgbaImage::from_pixel(w, h, image::Rgba(rgba));
    let mut bytes = Vec::new();
    image::DynamicImage::ImageRgba8(img)
        .write_to(&mut std::io::Cursor::new(&mut bytes), image::ImageFormat::Png)
        .unwrap();
    bytes
}

fn gif_bytes(colors: &[[u8; 4]], delay_ms: u32) -> Vec<u8> {
    let mut bytes = Vec::new();
    {
        let mut enc = image::codecs::gif::GifEncoder::new(&mut bytes);
        enc.set_repeat(image::codecs::gif::Repeat::Infinite).unwrap();
        for &c in colors {
            let buf = image::RgbaImage::from_pixel(2, 2, image::Rgba(c));
            let frame = image::Frame::from_parts(
                buf,
                0,
                0,
                image::Delay::from_numer_denom_ms(delay_ms, 1),
            );
            enc.encode_frame(frame).unwrap();
        }
    }
    bytes
}

#[test]
fn sniffs_known_signatures() {
    assert_eq!(
        sniff_format(&[0x89, b'P', b'N', b'G', 0x0d, 0x0a, 0x1a, 0x0a, 0]),
        MediaFormat::Png
    );
    assert_eq!(sniff_format(&[0xff, 0xd8, 0xff, 0xe0]), MediaFormat::Jpeg);
    assert_eq!(sniff_format(b"GIF89a...."), MediaFormat::Gif);
    assert_eq!(sniff_format(b"GIF87a...."), MediaFormat::Gif);
    assert_eq!(sniff_format(b"\0\0\0\x18ftypmp42"), MediaFormat::Mp4);
    assert_eq!(sniff_format(b"plain text"), MediaFormat::Unknown);
    assert_eq!(sniff_format(&[]), MediaFormat::Unknown);
}

#[test]
fn decodes_png_to_static_media() {
    let bytes = png_bytes(2, 3, [10, 20, 30, 255]);
    assert_eq!(sniff_format(&bytes), MediaFormat::Png);
    match MediaDecoder::decode(&bytes) {
        Some(DecodedMedia::Static(f)) => {
            assert_eq!(f.width, 2);
            assert_eq!(f.height, 3);
            assert_eq!(f.delay_ms, 0);
            assert_eq!(f.rgba.len(), 24);
            assert_eq!(&f.rgba[0..4], &[10, 20, 30, 255]);
        }
        _ => panic!("expected static media"),
    }
}

#[test]
fn decodes_gif_to_animated_media() {
    let bytes = gif_bytes(&[[255, 0, 0, 255], [0, 255, 0, 255]], 100);
    assert_eq!(sniff_format(&bytes), MediaFormat::Gif);
    match MediaDecoder::decode(&bytes) {
        Some(DecodedMedia::Animated(frames)) => {
            assert_eq!(frames.len(), 2);
            assert_eq!(frames[0].delay_ms, 100);
            assert_eq!(frames[1].delay_ms, 100);
            assert_eq!(frames[0].width, 2);
            assert_eq!(frames[0].height, 2);
            assert_eq!(&frames[0].rgba[0..4], &[255, 0, 0, 255]);
            assert_eq!(&frames[1].rgba[0..4], &[0, 255, 0, 255]);
        }
        _ => panic!("expected animated media"),
    }
}

#[test]
fn undecodable_bytes_yield_none() {
    assert!(MediaDecoder::decode(b"not an image at all").is_none());
}

#[test]
fn video_bytes_are_unsupported() {
    // An MP4 marker is recognised and surfaced as the explicit video
    // tag, which the renderer does not support.
    assert!(matches!(
        MediaDecoder::decode(b"\0\0\0\x18ftypmp42............"),
        Some(DecodedMedia::Video)
    ));
}

#[test]
fn video_overlay_payloads_are_rejected_as_unsupported() {
    let mp4 = b"\0\0\0\x18ftypmp42............";
    match ImageOverlay::from_bytes(mp4, 0, 0, 1) {
        Err(e) => assert_eq!(e, DecodeError::UnsupportedMedia),
        Ok(_) => panic!("expected an unsupported-media error"),
    }
    match AnimatedOverlay::from_bytes(mp4, 0, 0, 1, 0) {
        Err(e) => assert_eq!(e, DecodeError::UnsupportedMedia),
        Ok(_) => panic!("expected an unsupported-media error"),
    }
}

#[test]
fn frameless_gif_is_rejected() {
    // A syntactically valid GIF that carries no image data: header,
    // logical screen descriptor, trailer.
    let empty_gif: Vec<u8> = vec![
        b'G', b'I', b'F', b'8', b'9', b'a', // header
        2, 0, 2, 0, // logical screen 2x2
        0x00, 0, 0, // flags, background, aspect
        0x3b, // trailer
    ];
    assert!(MediaDecoder::decode(&empty_gif).is_none());
    match AnimatedOverlay::from_bytes(&empty_gif, 0, 0, 0, 0) {
        Err(e) => assert_eq!(e, DecodeError::InvalidData),
        Ok(_) => panic!("expected a decode error"),
    }
}

#[test]
fn image_overlay_from_bytes_decodes_and_positions() {
    let bytes = png_bytes(2, 2, [1, 2, 3, 255]);
    let o = ImageOverlay::from_bytes(&bytes, 7, -3, 42).unwrap();
    assert_eq!(o.frame.left, 7);
    assert_eq!(o.frame.top, -3);
    assert_eq!(o.frame.width, 2);
    assert_eq!(o.frame.height, 2);
    assert_eq!(o.frame.buffer.len(), 16);
    assert_eq!(&o.frame.buffer[0..4], &[1, 2, 3, 255]);
    assert_eq!(o.z_index, 42);
}

#[test]
fn image_overlay_from_bad_bytes_fails() {
    match ImageOverlay::from_bytes(b"garbage", 0, 0, 1) {
        Err(e) => assert_eq!(e, DecodeError::InvalidData),
        Ok(_) => panic!("expected a decode error"),
    }
}

#[test]
fn animated_overlay_from_bytes_decodes_frames() {
    let bytes = gif_bytes(&[[255, 0, 0, 255], [0, 0, 255, 255]], 200);
    let o = AnimatedOverlay::from_bytes(&bytes, 4, 5, 9, 1000).unwrap();
    assert_eq!(o.frames.len(), 2);
    assert_eq!(o.frames[0].left, 4);
    assert_eq!(o.frames[0].top, 5);
    assert_eq!(o.frames[0].delay_ms, 200);
    assert_eq!(o.frames[1].delay_ms, 200);
    assert_eq!(&o.frames[0].buffer[0..4], &[255, 0, 0, 255]);
    assert_eq!(&o.frames[1].buffer[0..4], &[0, 0, 255, 255]);
    assert_eq!(o.z_index, 9);
    assert_eq!(o.start_time_ms, 1000);
    // The decoded animation walks its frames: 200 ms per frame.
    assert_eq!(o.current_frame_index(1000), 0);
    assert_eq!(o.current_frame_index(1250), 1);
    assert_eq!(o.current_frame_index(1400), 0);
}

#[test]
fn animated_overlay_from_bad_bytes_fails() {
    match AnimatedOverlay::from_bytes(b"GIF89a but rubbish", 0, 0, 0, 0) {
        Err(e) => assert_eq!(e, DecodeError::InvalidData),
        Ok(_) => panic!("expected a decode error"),
    }
}
