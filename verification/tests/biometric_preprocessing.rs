use sable_core::biometric::preprocessing::{apply_median_filter, copy_image_borders, median9};
use sable_core::biometric::PalmImage;
use sable_core::SableError;

#[test]
fn test_median9_is_fifth_smallest() {
    assert_eq!(median9([5, 1, 9, 3, 7, 2, 8, 4, 6]), 5);
    assert_eq!(median9([0; 9]), 0);
    assert_eq!(median9([255, 255, 255, 255, 0, 0, 0, 0, 0]), 0);
    assert_eq!(median9([2, 2, 2, 2, 1, 1, 1, 1, 1]), 1);
    assert_eq!(median9([9, 9, 9, 9, 9, 0, 0, 0, 0]), 9);
}

#[test]
fn test_median_filter_replaces_interior_keeps_border() {
    let img = PalmImage::new(3, 3, 1, vec![9, 8, 7, 6, 1, 4, 3, 2, 5, 77]);
    let out = apply_median_filter(img).unwrap();
    assert_eq!(out.width, 3);
    assert_eq!(out.height, 3);
    assert_eq!(out.channels, 1);
    // Interior pixel becomes 5; border kept; the byte past the image is 0.
    assert_eq!(out.data, vec![9, 8, 7, 6, 5, 4, 3, 2, 5, 0]);
    assert!(out.preprocessing_steps.is_empty());
}

#[test]
fn test_median_filter_per_channel() {
    // 3 x 3, two channels: channel 0 is 1..9 with the centre 100, channel 1
    // is all 7 but the centre 0.
    let mut data = Vec::new();
    for i in 0..9u8 {
        data.push(if i == 4 { 100 } else { i + 1 });
        data.push(if i == 4 { 0 } else { 7 });
    }
    let out = apply_median_filter(PalmImage::new(3, 3, 2, data.clone())).unwrap();
    let mut expected = data;
    expected[8] = 6;
    expected[9] = 7;
    assert_eq!(out.data, expected);
}

#[test]
fn test_median_filter_short_buffer_fails() {
    let r = apply_median_filter(PalmImage::new(3, 3, 1, vec![0; 8]));
    assert_eq!(r.unwrap_err(), SableError::CryptoError("Pixel data out of bounds".to_string()));
}

#[test]
fn test_median_filter_without_channels_zeroes_buffer() {
    let out = apply_median_filter(PalmImage::new(3, 3, 0, vec![7, 7])).unwrap();
    assert_eq!(out.data, vec![0, 0]);
}

#[test]
fn test_copy_image_borders() {
    let src = PalmImage::new(3, 3, 1, vec![9, 8, 7, 6, 1, 4, 3, 2, 5]);
    let mut dest = vec![0u8; 9];
    copy_image_borders(&src, &mut dest).unwrap();
    assert_eq!(dest, vec![9, 8, 7, 6, 0, 4, 3, 2, 5]);
}

#[test]
fn test_copy_image_borders_failure_leaves_dest() {
    let src = PalmImage::new(3, 3, 1, vec![1; 8]);
    let mut dest = vec![42u8; 9];
    let r = copy_image_borders(&src, &mut dest);
    assert_eq!(r.unwrap_err(), SableError::CryptoError("Pixel data out of bounds".to_string()));
    assert_eq!(dest, vec![42u8; 9]);
}

#[test]
fn test_positions_fit() {
    assert!(PalmImage::new(100, 100, 3, vec![]).positions_fit());
    assert!(!PalmImage::new(65536, 65536, 1, vec![]).positions_fit());
}
