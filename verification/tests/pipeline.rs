use std::io::Cursor;

use image::{DynamicImage, ImageFormat, Rgb, RgbImage};
use smallerpixels::{
    conversion_report, convert_image, scan_jpeg_exif, ConversionAction, ConversionConfig, ConversionEvent,
    ConversionJob, ExifScan, Picture, WriteFailure,
};

fn gradient() -> DynamicImage {
    DynamicImage::ImageRgb8(RgbImage::from_fn(64, 64, |x, y| {
        Rgb([(x * 4) as u8, (y * 4) as u8, 128])
    }))
}

fn encoded(img: &DynamicImage, format: ImageFormat) -> Vec<u8> {
    let mut buf = Vec::new();
    img.write_to(&mut Cursor::new(&mut buf), format).unwrap();
    buf
}

fn webp_of(picture: &Picture, quality: u8) -> Vec<u8> {
    webp::Encoder::from_image(picture.image())
        .unwrap()
        .encode(quality as f32)
        .to_vec()
}

/// Reads, decodes and encodes; returns the job and the write action.
fn run_until_write(
    input: &str,
    root: &str,
    out: &str,
    bytes: Vec<u8>,
) -> (ConversionJob, ConversionAction) {
    let (job, action) = convert_image(input, root, out, &ConversionConfig::default());
    match action {
        ConversionAction::ReadSource { path } => assert_eq!(path, input),
        _ => panic!("first action must read the source"),
    }
    let (job, action) = job.advance(ConversionEvent::SourceRead(Some(bytes)));
    let webp = match action {
        ConversionAction::EncodeWebp { picture, quality } => {
            assert_eq!(quality, 80);
            webp_of(&picture, quality)
        }
        _ => panic!("decoded source must be encoded"),
    };
    job.advance(ConversionEvent::Encoded(Ok(webp)))
}

#[test]
fn png_conversion_writes_mirrored_webp_and_reports_sizes() {
    let png = encoded(&gradient(), ImageFormat::Png);
    let png_len = png.len() as u64;
    let (job, action) = run_until_write("photos/vacation/photo.png", "photos", "out", png);
    let written_len = match action {
        ConversionAction::WriteOutput { dir, path, bytes, timestamps_from } => {
            assert_eq!(dir.as_deref(), Some("out/vacation"));
            assert_eq!(path, "out/vacation/photo.webp");
            assert_eq!(&bytes[0..4], b"RIFF");
            assert_eq!(&bytes[8..12], b"WEBP");
            assert_eq!(timestamps_from, "photos/vacation/photo.png");
            bytes.len() as u64
        }
        _ => panic!("encoded output must be written"),
    };
    let (_, action) = job.advance(ConversionEvent::OutputWritten(Ok(())));
    match action {
        ConversionAction::Finish(res) => {
            assert!(res.success, "conversion failed: {:?}", res.error);
            assert_eq!(res.input, "photos/vacation/photo.png");
            assert_eq!(res.output, "out/vacation/photo.webp");
            assert!(res.output.ends_with(".webp"));
            assert_eq!(res.original_size, Some(png_len));
            assert_eq!(res.output_size, Some(written_len));
            assert_eq!(res.error, None);
        }
        _ => panic!("written output must finish the job"),
    }
}

#[test]
fn large_source_is_scaled_before_encoding() {
    let big = DynamicImage::ImageRgb8(RgbImage::new(300, 150));
    let bytes = encoded(&big, ImageFormat::Bmp);
    let config = ConversionConfig { max_size: 100, quality: 50 };
    let (job, _) = convert_image("big.bmp", "", "out", &config);
    let (_, action) = job.advance(ConversionEvent::SourceRead(Some(bytes)));
    match action {
        ConversionAction::EncodeWebp { picture, quality } => {
            assert_eq!((picture.width(), picture.height()), (100, 50));
            assert_eq!(quality, 50);
        }
        _ => panic!("decoded source must be encoded"),
    }
}

/// A JPEG with an APP1 EXIF segment carrying `payload` right after its SOI marker.
fn jpeg_with_exif_segment(payload: &[u8]) -> Vec<u8> {
    let jpeg = encoded(&gradient(), ImageFormat::Jpeg);
    let mut segment = b"Exif\0\0".to_vec();
    segment.extend_from_slice(payload);
    let len = (segment.len() + 2) as u16;
    let mut out = jpeg[0..2].to_vec();
    out.extend_from_slice(&[0xFF, 0xE1]);
    out.extend_from_slice(&len.to_be_bytes());
    out.extend_from_slice(&segment);
    out.extend_from_slice(&jpeg[2..]);
    out
}

#[test]
fn jpeg_exif_is_carried_into_the_webp_output() {
    let payload = b"II*\0camera says hello";
    let jpeg = jpeg_with_exif_segment(payload);
    let (_, action) = run_until_write("a.jpg", "", "out", jpeg);
    match action {
        ConversionAction::WriteOutput { path, bytes, .. } => {
            assert_eq!(path, "out/a.webp");
            let n = bytes.len();
            // EXIF chunk at the end: tag, size, payload, one pad byte (odd payload length).
            let chunk_start = n - (8 + payload.len() + payload.len() % 2);
            assert_eq!(&bytes[chunk_start..chunk_start + 4], b"EXIF");
            let size = u32::from_le_bytes(bytes[chunk_start + 4..chunk_start + 8].try_into().unwrap());
            assert_eq!(size as usize, payload.len());
            assert_eq!(&bytes[chunk_start + 8..chunk_start + 8 + payload.len()], payload);
            let riff = u32::from_le_bytes(bytes[4..8].try_into().unwrap()) as usize;
            assert_eq!(riff, n - 8);
        }
        _ => panic!("encoded output must be written"),
    }
}

fn finish_error(action: ConversionAction) -> String {
    match action {
        ConversionAction::Finish(res) => {
            assert!(!res.success);
            assert_eq!(res.output, "");
            assert_eq!(res.original_size, None);
            assert_eq!(res.output_size, None);
            res.error.expect("a failure carries its error")
        }
        _ => panic!("the job must finish"),
    }
}

#[test]
fn undecodable_source_fails_gracefully() {
    let (job, _) = convert_image("dir/corrupt.png", "dir", "dir", &ConversionConfig::default());
    let (_, action) = job.advance(ConversionEvent::SourceRead(Some(b"this is not an image".to_vec())));
    assert_eq!(finish_error(action), "failed to decode dir/corrupt.png");
}

#[test]
fn truncated_jpeg_fails_gracefully() {
    // An APP1 segment whose length field is too short to count itself.
    let data = vec![0xFF, 0xD8, 0xFF, 0xE1, 0x00, 0x00];
    let (job, _) = convert_image("dir/cut.jpg", "dir", "dir", &ConversionConfig::default());
    let (_, action) = job.advance(ConversionEvent::SourceRead(Some(data)));
    assert_eq!(finish_error(action), "failed to decode dir/cut.jpg");
}

#[test]
fn report_of_a_successful_run_carries_path_and_sizes() {
    let r = conversion_report("in/a.png", Ok(("out/a.webp".to_string(), 1200, 300)));
    assert!(r.success);
    assert_eq!(r.input, "in/a.png");
    assert_eq!(r.output, "out/a.webp");
    assert_eq!(r.original_size, Some(1200));
    assert_eq!(r.output_size, Some(300));
    assert_eq!(r.error, None);
}

#[test]
fn report_of_a_failed_run_carries_the_error() {
    let r = conversion_report("in/a.png", Err("failed to read in/a.png".to_string()));
    assert!(!r.success);
    assert_eq!(r.input, "in/a.png");
    assert_eq!(r.output, "");
    assert_eq!(r.original_size, None);
    assert_eq!(r.output_size, None);
    assert_eq!(r.error.as_deref(), Some("failed to read in/a.png"));
}

#[test]
fn unreadable_source_fails_with_read_error() {
    let (job, _) = convert_image("gone.jpg", "", "out", &ConversionConfig::default());
    let (_, action) = job.advance(ConversionEvent::SourceRead(None));
    assert_eq!(finish_error(action), "failed to read gone.jpg");
}

#[test]
fn encoder_failure_is_reported() {
    let png = encoded(&gradient(), ImageFormat::Png);
    let (job, _) = convert_image("x.png", "", "out", &ConversionConfig::default());
    let (job, _) = job.advance(ConversionEvent::SourceRead(Some(png)));
    let (_, action) = job.advance(ConversionEvent::Encoded(Err("Unimplemented".to_string())));
    assert_eq!(finish_error(action), "webp encoder error: Unimplemented");
}

#[test]
fn write_failures_name_the_directory_or_the_file() {
    let png = encoded(&gradient(), ImageFormat::Png);
    let (job, _) = run_until_write("in/sub/x.png", "in", "out", png.clone());
    let (_, action) = job.advance(ConversionEvent::OutputWritten(Err(WriteFailure::CreateDir)));
    assert_eq!(finish_error(action), "failed to create dir out/sub");

    let (job, _) = run_until_write("in/sub/x.png", "in", "out", png);
    let (_, action) = job.advance(ConversionEvent::OutputWritten(Err(WriteFailure::Write)));
    assert_eq!(finish_error(action), "failed to write out/sub/x.webp");
}

#[test]
fn malformed_app1_length_is_detected() {
    let data = [0xFF, 0xD8, 0xFF, 0xE1, 0x00, 0x01, 0x00, 0x00];
    assert!(matches!(scan_jpeg_exif(&data), ExifScan::Malformed));
}

#[test]
fn exif_is_found_after_other_segments() {
    let mut data = vec![0xFF, 0xD8, 0xFF, 0xE0, 0x00, 0x04, 0xAA, 0xBB];
    data.extend_from_slice(&[0xFF, 0xE1, 0x00, 0x0A]);
    data.extend_from_slice(b"Exif\0\0xy");
    match scan_jpeg_exif(&data) {
        ExifScan::Payload(p) => assert_eq!(p, b"xy"),
        _ => panic!("payload expected"),
    }
}
