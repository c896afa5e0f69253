use z_tools::backend::{
    files_snapshot, image_snapshot, image_too_large, next_attempt, pixel_hash, text_snapshot,
    thumb_size, OCCUPIED_RETRIES,
};
use z_tools::clipboard::{Captured, MAX_TEXT_BYTES};

#[test]
fn text_threshold_skips_blank_and_oversized() {
    assert_eq!(text_snapshot("   \n\t".into()), None);
    assert_eq!(
        text_snapshot("  a  ".into()),
        Some(Captured::Text("  a  ".into())),
        "入库保留原文，不 trim"
    );
    assert!(text_snapshot("x".repeat(MAX_TEXT_BYTES)).is_some());
    assert_eq!(text_snapshot("x".repeat(MAX_TEXT_BYTES + 1)), None);
}

#[test]
fn text_threshold_counts_utf8_bytes_and_unicode_space() {
    assert_eq!(text_snapshot("\u{3000}\u{a0}\u{2028}".into()), None);
    assert_eq!(text_snapshot("".into()), None);
    // 3 bytes per character: one character more than fits is refused
    let fits = "字".repeat(MAX_TEXT_BYTES / 3);
    assert!(text_snapshot(fits.clone()).is_some());
    assert_eq!(text_snapshot(format!("{fits}字")), None);
}

#[test]
fn image_size_threshold_is_rgba_bytes() {
    assert!(!image_too_large(2290, 2289));
    assert!(image_too_large(2300, 2300));
    assert!(image_too_large(u32::MAX, u32::MAX), "溢出视为过大");
    assert!(!image_too_large(0, 0));
}

#[test]
fn image_size_threshold_boundary() {
    // 5_242_880 pixels are exactly 20 MiB of RGBA
    assert!(!image_too_large(5_242_880, 1));
    assert!(image_too_large(5_242_881, 1));
}

#[test]
fn thumb_size_fits_longest_edge_without_upscaling() {
    assert_eq!(thumb_size(100, 50), (100, 50));
    assert_eq!(thumb_size(256, 256), (256, 256));
    assert_eq!(thumb_size(512, 256), (256, 128));
    assert_eq!(thumb_size(256, 1024), (64, 256));
    assert_eq!(thumb_size(10_000, 1), (256, 1), "短边至少 1 像素");
    assert_eq!(thumb_size(0, 0), (1, 1));
}

#[test]
fn thumb_size_rounds_to_nearest() {
    assert_eq!(thumb_size(300, 100), (256, 85));
    assert_eq!(thumb_size(0, 300), (1, 256));
    assert_eq!(thumb_size(257, 257), (256, 256));
}

#[test]
fn pixel_hash_depends_on_dimensions_and_pixels() {
    let px = vec![0u8; 16];
    let a = pixel_hash(2, 2, &px);
    assert_eq!(a, pixel_hash(2, 2, &px));
    assert_ne!(a, pixel_hash(4, 1, &px), "同字节不同尺寸不是同一张图");
    let mut other = px.clone();
    other[0] = 1;
    assert_ne!(a, pixel_hash(2, 2, &other));
    assert_eq!(a.len(), 64, "blake3 hex 长度");
}

#[test]
fn pixel_hash_is_image_domain_blake3() {
    let px = [9u8, 8, 7, 6];
    let mut input = b"image\0".to_vec();
    input.extend_from_slice(&1u32.to_le_bytes());
    input.extend_from_slice(&0x0102_0304u32.to_le_bytes());
    input.extend_from_slice(&px);
    assert_eq!(
        pixel_hash(1, 0x0102_0304, &px),
        blake3::hash(&input).to_hex().to_string()
    );
}

#[test]
fn image_snapshot_encodes_png_and_thumbnail() {
    let (w, h) = (300u32, 100u32);
    let bytes = vec![200u8; (w * h * 4) as usize];
    let Some(Captured::Image {
        png,
        thumb_png,
        width,
        height,
        rgba_hash,
    }) = image_snapshot(w as usize, h as usize, bytes)
    else {
        panic!("应得到图片快照");
    };
    assert_eq!((width, height), (w, h));
    assert_eq!(
        rgba_hash,
        pixel_hash(w, h, &vec![200u8; (w * h * 4) as usize])
    );
    let decoded = image::load_from_memory_with_format(&png, image::ImageFormat::Png)
        .expect("原图应是合法 PNG");
    assert_eq!((decoded.width(), decoded.height()), (w, h));
    let thumb = image::load_from_memory_with_format(&thumb_png, image::ImageFormat::Png)
        .expect("缩略图应是合法 PNG");
    assert_eq!((thumb.width(), thumb.height()), (256, 85));
}

#[test]
fn image_snapshot_rejects_mismatched_bytes() {
    assert_eq!(image_snapshot(2, 2, vec![0u8; 3]), None);
}

#[test]
fn image_snapshot_rejects_oversized_and_empty() {
    assert_eq!(image_snapshot(3000, 3000, vec![0u8; 16]), None);
    assert_eq!(image_snapshot(usize::MAX, 1, vec![]), None);
    // a zero-sized picture cannot be encoded as PNG
    assert_eq!(image_snapshot(0, 0, vec![]), None);
}

#[test]
fn files_snapshot_needs_a_path() {
    assert_eq!(files_snapshot(vec![]), None);
    assert_eq!(
        files_snapshot(vec!["/a".into()]),
        Some(Captured::Files(vec!["/a".into()]))
    );
}

#[test]
fn retries_only_while_occupied_and_under_the_limit() {
    assert_eq!(next_attempt(0, true), Some(1));
    assert_eq!(next_attempt(OCCUPIED_RETRIES - 1, true), Some(OCCUPIED_RETRIES));
    assert_eq!(next_attempt(OCCUPIED_RETRIES, true), None);
    assert_eq!(next_attempt(0, false), None);
}
