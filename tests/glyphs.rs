use navim::glyphs::{glyph_block, image_response_to_ascii, image_to_ascii, target_size, GLYPH_RAMP};

fn png_bytes(w: u32, h: u32, shade: u8) -> Vec<u8> {
    let img = image::GrayImage::from_pixel(w, h, image::Luma([shade]));
    let mut bytes: Vec<u8> = Vec::new();
    image::DynamicImage::ImageLuma8(img)
        .write_to(&mut std::io::Cursor::new(&mut bytes), image::ImageFormat::Png)
        .unwrap();
    bytes
}

#[test]
fn aspect_ratio_bound() {
    assert_eq!(target_size(1000, 500, 60), Some((60, 15)));
}

#[test]
fn narrow_source_keeps_its_width() {
    assert_eq!(target_size(40, 40, 60), Some((40, 20)));
}

#[test]
fn height_is_rounded() {
    // 60 * 333 / 1000 / 2 = 9.99
    assert_eq!(target_size(1000, 333, 60), Some((60, 10)));
}

#[test]
fn size_rejection() {
    assert_eq!(target_size(100, 2000, 60), None);
    assert_eq!(target_size(1000, 100, 60), None);
    assert_eq!(target_size(1000, 500, 9), None);
    assert_eq!(target_size(8, 100, 60), None);
}

#[test]
fn ramp_mapping() {
    assert_eq!(GLYPH_RAMP.len(), 10);
    let px: Vec<u8> = vec![0, 28, 29, 128, 254, 255, 0, 0, 0, 0];
    let s = glyph_block(10, 1, &px);
    let lines: Vec<&str> = s.lines().collect();
    assert_eq!(lines.len(), 3);
    assert_eq!(lines[0], "┌──────────┐");
    assert_eq!(lines[1], "│  .=%@    │");
    assert_eq!(lines[2], "└──────────┘");
    assert!(s.starts_with('┌'));
    assert!(s.ends_with("┘\n"));
}

#[test]
fn converts_decoded_image() {
    let bytes = png_bytes(100, 50, 255);
    let s = image_to_ascii(&bytes, 60).expect("drawn");
    let lines: Vec<&str> = s.lines().collect();
    assert_eq!(lines.len(), 1 + 15 + 1);
    assert_eq!(lines[0].chars().count(), 62);
    assert_eq!(lines[1], format!("│{}│", "@".repeat(60)));
}

#[test]
fn undecodable_bytes_give_none() {
    assert_eq!(image_to_ascii(&[1, 2, 3, 4], 60), None);
    assert_eq!(image_to_ascii(&[], 60), None);
    assert_eq!(image_to_ascii(b"not an image", 60), None);
}

#[test]
fn tall_image_rejected() {
    let bytes = png_bytes(20, 400, 0);
    assert_eq!(image_to_ascii(&bytes, 60), None);
}

#[test]
fn response_conversion_checks_type() {
    let bytes = png_bytes(100, 50, 0);
    assert!(bytes.len() > 0);
    assert_eq!(image_response_to_ascii("image/svg+xml", &bytes, 60), None);
    assert_eq!(image_response_to_ascii("text/html", &bytes, 60), None);
}

#[test]
fn acceptable_response_is_converted() {
    let mut bytes = png_bytes(100, 50, 255);
    // Pad past the small-body threshold; PNG decoders ignore trailing bytes.
    bytes.resize(2000, 0);
    let direct = image_to_ascii(&bytes, 60);
    assert!(direct.is_some());
    assert_eq!(image_response_to_ascii("image/png", &bytes, 60), direct);
    assert_eq!(image_response_to_ascii("image/png", &bytes[..999], 60), None);
}
