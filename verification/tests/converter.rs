use std::io::Cursor;
use std::path::Path;

use image::{DynamicImage, ImageFormat, RgbImage};
use smallerpixels::{
    find_jpeg_exif_bytes, inject_exif_into_webp, is_supported_image, load_picture,
    resize_if_needed, ConversionConfig,
};

// ── is_supported_image ────────────────────────────────────────────────────

fn path_str(p: &Path) -> &str {
    p.to_str().unwrap()
}

#[test]
fn supported_extensions_are_accepted() {
    for ext in &["jpg", "jpeg", "png", "gif", "bmp", "webp"] {
        let p = Path::new("file").with_extension(ext);
        assert!(is_supported_image(path_str(&p)), "{ext} should be supported");
    }
}

#[test]
fn unsupported_extensions_are_rejected() {
    for ext in &["txt", "pdf", "mp4", "tiff", "svg"] {
        let p = Path::new("file").with_extension(ext);
        assert!(!is_supported_image(path_str(&p)), "{ext} should not be supported");
    }
}

#[test]
fn extension_check_is_case_insensitive() {
    assert!(is_supported_image(path_str(Path::new("photo.JPG"))));
    assert!(is_supported_image(path_str(Path::new("photo.PNG"))));
    assert!(is_supported_image(path_str(Path::new("photo.Jpeg"))));
}

#[test]
fn missing_extension_is_rejected() {
    assert!(!is_supported_image(path_str(Path::new("Makefile"))));
}

// ── resize_if_needed ─────────────────────────────────────────────────────

/// A blank image of the given size, decoded into a picture from its BMP encoding.
fn blank(w: u32, h: u32) -> smallerpixels::Picture {
    let img = DynamicImage::ImageRgb8(RgbImage::new(w, h));
    let mut buf = Vec::new();
    img.write_to(&mut Cursor::new(&mut buf), ImageFormat::Bmp).unwrap();
    match load_picture(&buf) {
        Ok(p) => p,
        Err(_) => panic!("blank image did not decode"),
    }
}

#[test]
fn small_image_is_not_resized() {
    let result = resize_if_needed(blank(800, 600), 2048);
    assert_eq!((result.width(), result.height()), (800, 600));
}

#[test]
fn image_at_exact_limit_is_not_resized() {
    let result = resize_if_needed(blank(2048, 1024), 2048);
    assert_eq!((result.width(), result.height()), (2048, 1024));
}

#[test]
fn landscape_is_constrained_by_width() {
    let result = resize_if_needed(blank(4000, 2000), 2048);
    assert_eq!((result.width(), result.height()), (2048, 1024));
}

#[test]
fn portrait_is_constrained_by_height() {
    let result = resize_if_needed(blank(2000, 4000), 2048);
    assert_eq!((result.width(), result.height()), (1024, 2048));
}

#[test]
fn square_image_is_scaled_to_the_bound() {
    let result = resize_if_needed(blank(1024, 1024), 512);
    assert_eq!((result.width(), result.height()), (512, 512));
}

#[test]
fn wide_image_stays_wide_and_tall_image_stays_tall() {
    let wide = resize_if_needed(blank(3000, 7), 512);
    assert_eq!((wide.width(), wide.height()), (429, 1));
    let tall = resize_if_needed(blank(300, 1000), 100);
    assert_eq!((tall.width(), tall.height()), (30, 100));
}

#[test]
fn tiny_side_of_a_wide_image_collapses_to_one_pixel() {
    // 3000 x 1 scaled to 512 wide asks for a height of round(0.17) = 0; the image crate
    // then yields a 1 x 1 image.
    let result = resize_if_needed(blank(3000, 1), 512);
    assert_eq!((result.width(), result.height()), (1, 1));
}

#[test]
fn small_image_is_never_upscaled() {
    let result = resize_if_needed(blank(100, 100), 2048);
    assert_eq!((result.width(), result.height()), (100, 100));
}

// ── find_jpeg_exif_bytes ─────────────────────────────────────────────────

/// Build a minimal JPEG with an APP1/Exif segment containing `payload`.
fn jpeg_with_exif(payload: &[u8]) -> Vec<u8> {
    let segment_data: Vec<u8> = [b"Exif\0\0".as_slice(), payload].concat();
    let seg_len = (segment_data.len() + 2) as u16; // includes 2-byte length field
    let mut out = vec![0xFF, 0xD8, 0xFF, 0xE1];
    out.extend_from_slice(&seg_len.to_be_bytes());
    out.extend_from_slice(&segment_data);
    out
}

#[test]
fn extracts_exif_payload_from_jpeg() {
    let payload = b"fake exif bytes";
    assert_eq!(
        find_jpeg_exif_bytes(&jpeg_with_exif(payload)).as_deref(),
        Some(payload.as_slice())
    );
}

#[test]
fn returns_none_for_jpeg_without_exif() {
    // APP0 (JFIF) marker — not an EXIF segment
    let mut data = vec![0xFF, 0xD8, 0xFF, 0xE0, 0x00, 0x10];
    data.extend_from_slice(&[0u8; 14]); // 14 bytes of filler to match len=16
    assert_eq!(find_jpeg_exif_bytes(&data), None);
}

#[test]
fn returns_none_for_non_jpeg_bytes() {
    assert_eq!(find_jpeg_exif_bytes(b"\x89PNG\r\n"), None);
    assert_eq!(find_jpeg_exif_bytes(b""), None);
}

// ── inject_exif_into_webp ─────────────────────────────────────────────────

/// Build a minimal but structurally valid RIFF/WEBP container.
fn minimal_webp() -> Vec<u8> {
    let chunk_data = vec![0u8; 4];
    let mut body: Vec<u8> = b"WEBP".to_vec();
    body.extend_from_slice(b"VP8L");
    body.extend_from_slice(&(chunk_data.len() as u32).to_le_bytes());
    body.extend_from_slice(&chunk_data);

    let mut out = b"RIFF".to_vec();
    out.extend_from_slice(&(body.len() as u32).to_le_bytes());
    out.extend_from_slice(&body);
    out
}

fn injected(webp: &[u8], exif: &[u8]) -> Vec<u8> {
    match inject_exif_into_webp(webp, exif) {
        Ok(v) => v,
        Err(_) => panic!("injection refused a valid WebP container"),
    }
}

#[test]
fn injects_exif_chunk_and_keeps_riff_header() {
    let result = injected(&minimal_webp(), b"fake exif");
    assert_eq!(&result[0..4], b"RIFF");
    assert_eq!(&result[8..12], b"WEBP");
    let has_exif = result[12..].windows(4).any(|w| w == b"EXIF");
    assert!(has_exif, "EXIF chunk must be present in output");
}

#[test]
fn riff_size_field_matches_output_length() {
    let result = injected(&minimal_webp(), b"fake exif");
    let reported = u32::from_le_bytes(result[4..8].try_into().unwrap()) as usize;
    assert_eq!(reported, result.len() - 8);
}

#[test]
fn odd_length_exif_is_padded_to_even_boundary() {
    let result = injected(&minimal_webp(), b"odd"); // 3 bytes
    // "EXIF" + 4-byte size + 3 bytes data + 1 pad = 12 bytes; total must be even
    assert_eq!(result.len() % 2, 0);
}

#[test]
fn rejects_invalid_webp_input() {
    assert!(inject_exif_into_webp(b"not a webp file!!!", b"x").is_err());
    assert!(inject_exif_into_webp(b"", b"x").is_err());
}

#[test]
fn non_webp_error_names_the_problem() {
    match inject_exif_into_webp(b"RIFF\x04\x00\x00\x00WEBX", b"x") {
        Err(e) => assert_eq!(e.message(), "not a valid WebP file"),
        Ok(_) => panic!("a RIFF file of another form is no WebP file"),
    }
}

// ── ConversionConfig ──────────────────────────────────────────────────────

#[test]
fn default_config_bounds_at_2048_with_quality_80() {
    let c = ConversionConfig::default();
    assert_eq!(c.max_size, 2048);
    assert_eq!(c.quality, 80);
}
