use sable_core::biometric::feature_extraction::{
    calculate_local_ridge_density, detect_minutiae_points, filter_false_minutiae, simd_enabled,
};
use sable_core::biometric::PalmImage;

/// A 64 x 64 skeleton: a solid band in rows 0..5, a horizontal ridge on row
/// 12 from x = 20 to 44, and a vertical ridge from (32, 13) down to (32, 20)
/// that meets it in a T.
fn t_junction_skeleton() -> PalmImage {
    let w = 64usize;
    let mut data = vec![0u8; w * w];
    for y in 0..5 {
        for x in 0..w {
            data[y * w + x] = 255;
        }
    }
    for x in 20..=44 {
        data[12 * w + x] = 255;
    }
    for y in 13..=20 {
        data[y * w + 32] = 255;
    }
    PalmImage::new(64, 64, 1, data)
}

#[test]
fn test_ridge_density_counts_clipped_window() {
    let img = t_junction_skeleton();
    assert_eq!(calculate_local_ridge_density(&img, 20, 12, 10).unwrap(), (74, 441));
    assert_eq!(calculate_local_ridge_density(&img, 32, 12, 10).unwrap(), (92, 441));
    // Clipped at the top-left corner: an 11 x 11 window holding 5 band rows.
    assert_eq!(calculate_local_ridge_density(&img, 0, 0, 10).unwrap(), (55, 121));
}

#[test]
fn test_ridge_density_missing_pixel_fails() {
    let img = PalmImage::new(64, 64, 1, vec![0u8; 100]);
    assert!(calculate_local_ridge_density(&img, 32, 32, 10).is_err());
}

#[test]
fn test_minutiae_of_t_junction() {
    let img = t_junction_skeleton();
    let (endings, bifurcations) = detect_minutiae_points(&img).unwrap();
    // The lower end of the stem (32, 20) lies in too sparse a window (29 of
    // 441 pixels) and is dropped; the two ends of the bar are kept.
    assert_eq!(endings, vec![(20, 12), (44, 12)]);
    assert_eq!(bifurcations, vec![(32, 12)]);
}

#[test]
fn test_minutiae_of_blank_skeleton() {
    let img = PalmImage::new(64, 64, 1, vec![0u8; 64 * 64]);
    let (endings, bifurcations) = detect_minutiae_points(&img).unwrap();
    assert!(endings.is_empty());
    assert!(bifurcations.is_empty());
}

#[test]
fn test_minutiae_missing_pixel_fails() {
    let img = PalmImage::new(64, 64, 1, vec![0u8; 64 * 32]);
    assert!(detect_minutiae_points(&img).is_err());
}

#[test]
fn test_filter_drops_border_and_near_minutiae() {
    let img = t_junction_skeleton();
    let kept = filter_false_minutiae(&img, vec![(20, 12), (22, 12), (5, 5), (44, 12)]).unwrap();
    assert_eq!(kept, vec![(20, 12), (44, 12)]);
}

#[test]
fn test_filter_drops_sparse_minutiae() {
    let img = t_junction_skeleton();
    let kept = filter_false_minutiae(&img, vec![(32, 20)]).unwrap();
    assert!(kept.is_empty());
}

#[test]
fn test_filter_drops_dense_minutiae() {
    let img = PalmImage::new(64, 64, 1, vec![255u8; 64 * 64]);
    let kept = filter_false_minutiae(&img, vec![(30, 30)]).unwrap();
    assert!(kept.is_empty());
}

#[test]
fn test_scalar_kernels_run() {
    assert!(!simd_enabled());
}
