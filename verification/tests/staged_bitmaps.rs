use hoi4_editor::province_save::{expected_bmp_size, validate_bmp, BmpHeaderError, StagedBmpError};
use image::codecs::bmp::BmpEncoder;
use image::{ExtendedColorType, Rgb, RgbImage};

fn image_with_colors(colors: [[u8; 3]; 2]) -> RgbImage {
    RgbImage::from_fn(3, 2, |x, _| Rgb(if x < 2 { colors[0] } else { colors[1] }))
}

fn encode(image: &RgbImage) -> Vec<u8> {
    let mut bytes = Vec::new();
    let mut encoder = BmpEncoder::new(&mut bytes);
    encoder
        .encode(image.as_raw(), image.width(), image.height(), ExtendedColorType::Rgb8)
        .unwrap();
    bytes
}

fn check(bytes: &[u8], image: &RgbImage) -> Result<(), StagedBmpError> {
    validate_bmp(bytes, image.width(), image.height(), &image.as_raw().clone())
}

#[test]
fn bmp_validation_requires_24_bit_padded_complete_output() {
    let image = image_with_colors([[10, 20, 30], [40, 50, 60]]);
    let bytes = encode(&image);
    assert_eq!(bytes.len() as u64, expected_bmp_size(3, 2).unwrap());
    check(&bytes, &image).unwrap();

    let mut truncated = bytes.clone();
    truncated.pop();
    assert!(check(&truncated, &image).is_err());
    let mut wrong_depth = bytes;
    wrong_depth[28..30].copy_from_slice(&32u16.to_le_bytes());
    assert!(check(&wrong_depth, &image).is_err());
}

#[test]
fn staged_bitmap_refusals_name_their_reason() {
    let image = image_with_colors([[10, 20, 30], [40, 50, 60]]);
    let bytes = encode(&image);

    let mut truncated = bytes.clone();
    truncated.pop();
    let error = check(&truncated, &image).unwrap_err();
    assert_eq!(
        error,
        StagedBmpError::Header(BmpHeaderError::SizeMismatch { header: 78, actual: 77, expected: 78 })
    );
    assert_eq!(
        error.message(),
        "Staged provinces.bmp size mismatch: header 78, actual 77, expected 78."
    );

    let mut wrong_depth = bytes.clone();
    wrong_depth[28..30].copy_from_slice(&32u16.to_le_bytes());
    assert_eq!(
        check(&wrong_depth, &image).unwrap_err().message(),
        "Staged provinces.bmp format mismatch: DIB 40, 3x2, planes 1, 32-bit, compression 0."
    );

    let other = image_with_colors([[10, 20, 30], [40, 50, 61]]);
    assert_eq!(check(&bytes, &other), Err(StagedBmpError::PixelMismatch));
    assert_eq!(
        StagedBmpError::PixelMismatch.message(),
        "Staged provinces.bmp pixels do not match the working province model."
    );

    let wider = RgbImage::new(4, 2);
    assert_eq!(
        validate_bmp(&bytes, 4, 2, &wider.as_raw().clone()).unwrap_err().message(),
        "Staged provinces.bmp is 3x2, expected 4x2."
    );
    assert_eq!(
        validate_bmp(b"XX", 3, 2, &image.as_raw().clone()).unwrap_err().message(),
        "Staged provinces.bmp has an invalid BMP header."
    );
}

#[test]
fn province_bitmap_encodes_as_bottom_up_bgr_rows() {
    let bytes = hoi4_editor::province_save::encode_provinces_bmp(1, 2, &[1, 2, 3, 4, 5, 6]).unwrap();
    assert_eq!(bytes.len(), 54 + 2 * 4);
    assert_eq!(&bytes[0..2], b"BM");
    assert_eq!(&bytes[54..58], &[6, 5, 4, 0]);
    assert_eq!(&bytes[58..62], &[3, 2, 1, 0]);
}

#[test]
fn oversized_province_bitmap_is_refused() {
    let error = hoi4_editor::province_save::encode_provinces_bmp(0x5555_5556, 0, &[]).unwrap_err();
    assert!(error.starts_with("Cannot encode provinces.bmp: "));
}
