use sable_core::biometric::PalmImage;
use sable_core::SableError;

#[test]
fn test_palm_image_creation() {
    let data = vec![128u8; 640 * 480 * 3];
    let image = PalmImage::new(640, 480, 3, data);
    assert_eq!(image.width, 640);
    assert_eq!(image.height, 480);
    assert_eq!(image.channels, 3);
}

#[test]
fn test_pixel_access() {
    let data = vec![0u8; 10 * 10 * 1];
    let mut image = PalmImage::new(10, 10, 1, data);

    image.set_pixel(5, 5, 0, 255).unwrap();
    assert_eq!(image.get_pixel(5, 5, 0).unwrap(), 255);
}

#[test]
fn pixel_access_out_of_bounds_is_an_error() {
    let mut image = PalmImage::new(4, 4, 3, vec![0u8; 40]);
    assert!(matches!(image.get_pixel(4, 0, 0), Err(SableError::CryptoError(_))));
    assert!(matches!(image.get_pixel(0, 0, 3), Err(SableError::CryptoError(_))));
    // inside the dimensions but past the short buffer
    assert!(image.get_pixel(3, 3, 2).is_err());
    assert!(image.set_pixel(3, 3, 2, 1).is_err());
    image.set_pixel(1, 2, 1, 9).unwrap();
    assert_eq!(image.data[(2 * 4 + 1) * 3 + 1], 9);
}

#[test]
fn preprocessing_steps_are_recorded_in_order() {
    let mut image = PalmImage::new(1, 1, 1, vec![0]);
    image.add_preprocessing_step("a".to_string());
    image.add_preprocessing_step("b".to_string());
    assert_eq!(image.preprocessing_steps, vec!["a".to_string(), "b".to_string()]);
}

#[test]
fn pixel_past_32_bit_positions_is_an_error() {
    let img = PalmImage::new(70000, 70000, 1, vec![0u8; 16]);
    assert_eq!(
        img.get_pixel(0, 69999, 0).unwrap_err(),
        SableError::CryptoError("Pixel data out of bounds".to_string())
    );
    assert_eq!(
        img.get_pixel(70000, 0, 0).unwrap_err(),
        SableError::CryptoError("Pixel coordinates out of bounds".to_string())
    );
    assert_eq!(img.get_pixel(3, 0, 0), Ok(0));
}
