use pixelloop::graphics::{Color, DecodeError, Sprite};

#[test]
fn color_roundtrip_all_bytes() {
    // Round-trip over every byte value in each channel.
    for v in 0..=255u8 {
        assert_eq!(Color::from_rgba(v, 1, 2, 3).unpack(), [v, 1, 2, 3]);
        assert_eq!(Color::from_rgba(1, v, 2, 3).unpack(), [1, v, 2, 3]);
        assert_eq!(Color::from_rgba(1, 2, v, 3).unpack(), [1, 2, v, 3]);
        assert_eq!(Color::from_rgba(1, 2, 3, v).unpack(), [1, 2, 3, v]);
    }
}

#[test]
fn from_rgb_is_opaque() {
    let c = Color::from_rgb(10, 20, 30);
    assert_eq!(c.unpack(), [10, 20, 30, 255]);
}

#[test]
fn from_u8_reads_first_four_bytes() {
    let bytes = [9u8, 8, 7, 6, 5];
    let c = Color::from_u8(&bytes);
    assert_eq!(c.unpack(), [9, 8, 7, 6]);
}

#[test]
fn named_colors() {
    assert_eq!(Color::red().unpack(), [255, 0, 0, 255]);
    assert_eq!(Color::green().unpack(), [0, 255, 0, 255]);
    assert_eq!(Color::blue().unpack(), [0, 0, 255, 255]);
    assert_eq!(Color::white().unpack(), [255, 255, 255, 255]);
    assert_eq!(Color::black().unpack(), [0, 0, 0, 255]);
    assert_eq!(Color::transparent().unpack(), [0, 0, 0, 0]);
}

#[test]
fn sprite_from_raw_groups_bytes() {
    let bytes: Vec<u8> = (0u8..16).collect();
    let s = Sprite::from_raw(2, 2, &bytes).unwrap();
    assert_eq!(s.width, 2);
    assert_eq!(s.height, 2);
    assert_eq!(s.rgba.len(), 4);
    assert_eq!(s.rgba[0].unpack(), [0, 1, 2, 3]);
    assert_eq!(s.rgba[1].unpack(), [4, 5, 6, 7]);
    assert_eq!(s.rgba[2].unpack(), [8, 9, 10, 11]);
    assert_eq!(s.rgba[3].unpack(), [12, 13, 14, 15]);
}

#[test]
fn sprite_from_raw_rejects_wrong_length() {
    let bytes = [0u8; 15];
    assert_eq!(
        Sprite::from_raw(2, 2, &bytes).unwrap_err(),
        DecodeError::LengthMismatch
    );
}

#[test]
fn sprite_new_rejects_garbage() {
    let bytes = [1u8, 2, 3, 4, 5];
    assert_eq!(Sprite::new(&bytes).unwrap_err(), DecodeError::Malformed);
}

#[test]
fn sprite_new_decodes_png() {
    // Encode a 2x1 image with known pixels, then decode it back through the
    // sprite constructor: the result must reflect the pixel data, not the
    // encoded input bytes.
    let mut img = image::RgbaImage::new(2, 1);
    img.put_pixel(0, 0, image::Rgba([255, 0, 0, 255]));
    img.put_pixel(1, 0, image::Rgba([0, 0, 255, 128]));
    let mut bytes: Vec<u8> = Vec::new();
    img.write_to(
        &mut std::io::Cursor::new(&mut bytes),
        image::ImageFormat::Png,
    )
    .unwrap();

    let s = Sprite::new(&bytes).unwrap();
    assert_eq!(s.width, 2);
    assert_eq!(s.height, 1);
    assert_eq!(s.rgba[0].unpack(), [255, 0, 0, 255]);
    assert_eq!(s.rgba[1].unpack(), [0, 0, 255, 128]);
}
