use collider_gen::mask::{build_mask, MaskError, PixelFormat};

#[test]
fn rgba_alpha_decides_opacity() {
    let data = vec![255, 255, 255, 0, 0, 0, 0, 1, 9, 9, 9, 200, 0, 0, 0, 0];
    let m = build_mask(2, 2, PixelFormat::Rgba8, &data).unwrap();
    assert_eq!(m.width, 2);
    assert_eq!(m.height, 2);
    assert_eq!(m.cells, vec![false, true, true, false]);
}

#[test]
fn luma_alpha_reads_second_byte() {
    let data = vec![255, 0, 0, 7, 3, 3];
    let m = build_mask(3, 1, PixelFormat::LumaA8, &data).unwrap();
    assert_eq!(m.cells, vec![false, true, true]);
}

#[test]
fn luma_without_alpha_uses_luminance() {
    let data = vec![0, 1, 255, 0];
    let m = build_mask(1, 4, PixelFormat::Luma8, &data).unwrap();
    assert_eq!(m.cells, vec![false, true, true, false]);
    assert!(m.is_opaque(0, 1));
    assert!(!m.is_opaque(0, 3));
}

#[test]
fn rgb_without_alpha_uses_any_channel() {
    let data = vec![0, 0, 0, 0, 0, 5, 6, 0, 0];
    let m = build_mask(3, 1, PixelFormat::Rgb8, &data).unwrap();
    assert_eq!(m.cells, vec![false, true, true]);
}

#[test]
fn unsupported_format_is_rejected() {
    let data = vec![1, 2, 3, 4];
    assert_eq!(
        build_mask(2, 2, PixelFormat::Unsupported, &data).unwrap_err(),
        MaskError::UnsupportedFormat
    );
}

#[test]
fn wrong_buffer_length_is_rejected() {
    let data = vec![1, 2, 3];
    assert_eq!(
        build_mask(2, 2, PixelFormat::Luma8, &data).unwrap_err(),
        MaskError::SizeMismatch
    );
}

#[test]
fn oversized_image_is_rejected() {
    let data = vec![];
    assert_eq!(
        build_mask(u32::MAX, 2, PixelFormat::Luma8, &data).unwrap_err(),
        MaskError::SizeMismatch
    );
}

#[test]
fn empty_image_gives_empty_mask() {
    let m = build_mask(0, 5, PixelFormat::Rgba8, &vec![]).unwrap();
    assert!(m.cells.is_empty());
}
