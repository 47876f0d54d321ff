use sable_core::biometric::feature_extraction::{
    apply_morphological_operations, apply_zhang_suen_thinning, binarize_image,
    calculate_crossing_number, count_foreground_neighbors, count_lbp_transitions,
    detect_vein_bifurcations, detect_vein_endpoints, morphological_dilation, morphological_erosion,
    should_delete_pixel, validate_image_dimensions, MAX_IMAGE_DIM, MIN_IMAGE_DIM, PRINT_FEATURE_DIM,
    VEIN_FEATURE_DIM,
};
use sable_core::biometric::PalmImage;

fn create_test_image() -> PalmImage {
    let data = (0..256).map(|i| (i % 256) as u8).collect();
    PalmImage::new(16, 16, 1, data)
}

fn create_image_with_dimensions(width: u32, height: u32) -> PalmImage {
    let size = (width * height) as usize;
    let data = vec![128u8; size];
    PalmImage::new(width, height, 1, data)
}

fn create_ridge_test_image() -> PalmImage {
    let mut data = Vec::with_capacity(64 * 64);
    for _y in 0..64 {
        for x in 0..64 {
            let value = if x % 4 < 2 { 200u8 } else { 50u8 };
            data.push(value);
        }
    }
    PalmImage::new(64, 64, 1, data)
}

#[test]
fn test_zhang_suen_thinning() {
    let mut data = vec![0u8; 64];
    for i in 16..48 {
        data[i] = 255;
    }

    let image = PalmImage::new(8, 8, 1, data);
    let thinned = apply_zhang_suen_thinning(&image).unwrap();

    assert_eq!(thinned.width, 8);
    assert_eq!(thinned.height, 8);
}

#[test]
fn test_morphological_operations() {
    let image = create_test_image();
    let result = apply_morphological_operations(&image).unwrap();

    assert_eq!(result.width, image.width);
    assert_eq!(result.height, image.height);
}

#[test]
fn test_validate_image_dimensions_valid_minimum() {
    let image = create_image_with_dimensions(MIN_IMAGE_DIM, MIN_IMAGE_DIM);
    assert!(validate_image_dimensions(&image).is_ok());
}

#[test]
fn test_validate_image_dimensions_valid_maximum() {
    let image = create_image_with_dimensions(MAX_IMAGE_DIM, MAX_IMAGE_DIM);
    assert!(validate_image_dimensions(&image).is_ok());
}

#[test]
fn test_validate_image_dimensions_valid_typical() {
    let image_256 = create_image_with_dimensions(256, 256);
    let image_512 = create_image_with_dimensions(512, 512);
    let image_1024 = create_image_with_dimensions(1024, 768);

    assert!(validate_image_dimensions(&image_256).is_ok());
    assert!(validate_image_dimensions(&image_512).is_ok());
    assert!(validate_image_dimensions(&image_1024).is_ok());
}

#[test]
fn test_validate_image_dimensions_width_too_small() {
    let image = create_image_with_dimensions(MIN_IMAGE_DIM - 1, MIN_IMAGE_DIM);
    let result = validate_image_dimensions(&image);
    assert!(result.is_err());
    assert!(result.unwrap_err().to_string().contains("Invalid image dimensions"));
}

#[test]
fn test_validate_image_dimensions_height_too_small() {
    let image = create_image_with_dimensions(MIN_IMAGE_DIM, MIN_IMAGE_DIM - 1);
    let result = validate_image_dimensions(&image);
    assert!(result.is_err());
    assert!(result.unwrap_err().to_string().contains("Invalid image dimensions"));
}

#[test]
fn test_validate_image_dimensions_both_too_small() {
    let image = create_image_with_dimensions(32, 32);
    let result = validate_image_dimensions(&image);
    assert!(result.is_err());
}

#[test]
fn test_validate_image_dimensions_width_too_large() {
    let image = create_image_with_dimensions(MAX_IMAGE_DIM + 1, MAX_IMAGE_DIM);
    let result = validate_image_dimensions(&image);
    assert!(result.is_err());
    assert!(result.unwrap_err().to_string().contains("Invalid image dimensions"));
}

#[test]
fn test_validate_image_dimensions_height_too_large() {
    let image = create_image_with_dimensions(MAX_IMAGE_DIM, MAX_IMAGE_DIM + 1);
    let result = validate_image_dimensions(&image);
    assert!(result.is_err());
    assert!(result.unwrap_err().to_string().contains("Invalid image dimensions"));
}

#[test]
fn test_validate_image_dimensions_both_too_large() {
    let image = create_image_with_dimensions(5000, 5000);
    let result = validate_image_dimensions(&image);
    assert!(result.is_err());
}

#[test]
fn test_validate_image_dimensions_zero_width() {
    let image = create_image_with_dimensions(0, MIN_IMAGE_DIM);
    assert!(validate_image_dimensions(&image).is_err());
}

#[test]
fn test_validate_image_dimensions_zero_height() {
    let image = create_image_with_dimensions(MIN_IMAGE_DIM, 0);
    assert!(validate_image_dimensions(&image).is_err());
}

#[test]
fn test_error_messages_are_generic() {
    let too_small = create_image_with_dimensions(32, 32);
    let too_large = create_image_with_dimensions(5000, 5000);
    let width_only_bad = create_image_with_dimensions(32, 256);
    let height_only_bad = create_image_with_dimensions(256, 32);

    let err1 = validate_image_dimensions(&too_small).unwrap_err().to_string();
    let err2 = validate_image_dimensions(&too_large).unwrap_err().to_string();
    let err3 = validate_image_dimensions(&width_only_bad).unwrap_err().to_string();
    let err4 = validate_image_dimensions(&height_only_bad).unwrap_err().to_string();

    assert_eq!(err1, err2);
    assert_eq!(err2, err3);
    assert_eq!(err3, err4);

    assert!(!err1.contains("32"));
    assert!(!err1.contains("5000"));
    assert!(!err1.contains("width"));
    assert!(!err1.contains("height"));
}

#[test]
fn test_constants_have_correct_values() {
    assert_eq!(MIN_IMAGE_DIM, 64);
    assert_eq!(MAX_IMAGE_DIM, 4096);
    assert_eq!(VEIN_FEATURE_DIM, 512);
    assert_eq!(PRINT_FEATURE_DIM, 256);
}

#[test]
fn test_count_lbp_transitions_uniform_pattern() {
    assert!(count_lbp_transitions(0b00000000) <= 2);
    assert!(count_lbp_transitions(0b11111111) <= 2);
    assert!(count_lbp_transitions(0b00001111) <= 2);
    assert!(count_lbp_transitions(0b00000001) <= 2);
}

#[test]
fn test_count_lbp_transitions_non_uniform_pattern() {
    assert!(count_lbp_transitions(0b01010101) > 2);
    assert!(count_lbp_transitions(0b10101010) > 2);
}

#[test]
fn test_binarize_image_output() {
    let image = create_ridge_test_image();
    let binary = binarize_image(&image).unwrap();

    for &pixel in &binary.data {
        assert!(pixel == 0 || pixel == 255, "Binary image should only contain 0 or 255, got {}", pixel);
    }
}

#[test]
fn test_calculate_crossing_number() {
    let mut data = vec![0u8; 9];
    data[4] = 255;
    data[1] = 255;
    let image = PalmImage::new(3, 3, 1, data);

    let cn = calculate_crossing_number(&image, 1, 1).unwrap();
    assert_eq!(cn, 1, "Endpoint should have crossing number 1");
}

#[test]
fn lbp_transition_counts_are_exact() {
    assert_eq!(count_lbp_transitions(0b00000000), 0);
    assert_eq!(count_lbp_transitions(0b00001111), 2);
    assert_eq!(count_lbp_transitions(0b00000001), 2);
    assert_eq!(count_lbp_transitions(0b01010101), 8);
    assert_eq!(count_lbp_transitions(0b00110011), 4);
}

#[test]
fn erosion_and_dilation_take_window_extremes() {
    // 4x4 ramp: value = 10 * (y * 4 + x)
    let data: Vec<u8> = (0..16).map(|i| (10 * i) as u8).collect();
    let image = PalmImage::new(4, 4, 1, data);
    let eroded = morphological_erosion(&image).unwrap();
    let dilated = morphological_dilation(&image).unwrap();
    // interior (1,1): window rows 0..2, cols 0..2 -> min 0, max 100
    assert_eq!(eroded.data[5], 0);
    assert_eq!(dilated.data[5], 100);
    // interior (2,2): min 50, max 150
    assert_eq!(eroded.data[10], 50);
    assert_eq!(dilated.data[10], 150);
    // borders are zero
    assert_eq!(eroded.data[0], 0);
    assert_eq!(dilated.data[3], 0);
    assert_eq!(dilated.channels, 1);
}

#[test]
fn morphology_fails_on_a_short_buffer() {
    let image = PalmImage::new(4, 4, 1, vec![0u8; 10]);
    assert!(morphological_erosion(&image).is_err());
}

#[test]
fn thinning_reduces_a_thick_bar_and_outputs_binary() {
    let mut data = vec![0u8; 100];
    for y in 3..6 {
        for x in 1..9 {
            data[y * 10 + x] = 255;
        }
    }
    let image = PalmImage::new(10, 10, 1, data.clone());
    let thinned = apply_zhang_suen_thinning(&image).unwrap();
    let before = data.iter().filter(|&&v| v > 128).count();
    let after = thinned.data.iter().filter(|&&v| v == 255).count();
    assert!(after > 0 && after < before);
    // the three-row bar thins to its middle row
    let middle: Vec<u8> = (0..10).map(|x| if (1..9).contains(&x) { 255 } else { 0 }).collect();
    assert_eq!(&thinned.data[40..50], &middle[..]);
    assert_eq!(after, 8);
    assert!(thinned.data.iter().all(|&v| v == 0 || v == 255));
    // skeleton lies within the original foreground
    for i in 0..100 {
        if thinned.data[i] == 255 {
            assert!(data[i] > 128);
        }
    }
    // thinning is stable
    let again = apply_zhang_suen_thinning(&thinned).unwrap();
    assert_eq!(again.data, thinned.data);
}

#[test]
fn should_delete_pixel_on_an_end_of_line() {
    // 3x3 map: centre with one neighbour above -> 1 neighbour, not deleted
    let b = [false, true, false, false, true, false, false, false, false];
    assert!(!should_delete_pixel(&b, 1, 1, 3, true));
    // centre with north and east neighbours: two transitions, kept
    let c = [false, true, false, false, true, true, false, false, false];
    assert!(!should_delete_pixel(&c, 1, 1, 3, true));
    assert!(!should_delete_pixel(&c, 1, 1, 3, false));
    // north-west corner of a block: three neighbours, one transition, deleted
    let d = [false, false, false, false, true, true, false, true, true];
    assert!(should_delete_pixel(&d, 1, 1, 3, true));
    // a background pixel is never deleted
    assert!(!should_delete_pixel(&[false; 9], 1, 1, 3, true));
}

#[test]
fn skeleton_features_are_found() {
    // A 'T': horizontal row 2 from x=1..6, vertical from (3,2) down to (3,5)
    let w = 7u32;
    let h = 7u32;
    let mut data = vec![0u8; (w * h) as usize];
    for x in 1..6 {
        data[(2 * w + x) as usize] = 255;
    }
    for y in 3..6 {
        data[(y * w + 3) as usize] = 255;
    }
    let image = PalmImage::new(w, h, 1, data);
    assert_eq!(count_foreground_neighbors(&image, 3, 2).unwrap(), 3);
    let bif = detect_vein_bifurcations(&image).unwrap();
    assert!(bif.contains(&(3, 2)));
    let ends = detect_vein_endpoints(&image).unwrap();
    assert!(ends.contains(&(1, 2)) && ends.contains(&(5, 2)) && ends.contains(&(3, 5)));
}

#[test]
fn binarization_compares_with_the_block_mean() {
    // 3x1 image [0, 10, 20]: every block is the whole image (mean 10).
    // 0 > 5? no. 10 > 5? yes. 20 > 5? yes.
    let image = PalmImage::new(3, 1, 1, vec![0, 10, 20]);
    assert_eq!(binarize_image(&image).unwrap().data, vec![0, 255, 255]);
    // equality stays background: [5, 5, 20] mean 10, 5 > 5 false
    let image = PalmImage::new(3, 1, 1, vec![5, 5, 20]);
    assert_eq!(binarize_image(&image).unwrap().data, vec![0, 0, 255]);
}
