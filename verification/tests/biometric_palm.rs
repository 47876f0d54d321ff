use sable_core::biometric::palm::{PalmProcessor, PalmProcessorBuilder};
use sable_core::biometric::PalmImage;
use sable_core::SableError;

#[test]
fn test_palm_processor_creation() {
    let processor = PalmProcessor::new();
    assert!(processor.high_quality_mode);
    assert!(!processor.require_multimodal);
}

#[test]
fn test_palm_processor_builder() {
    let processor = PalmProcessorBuilder::new().high_quality(false).multimodal(true).build();

    assert!(!processor.high_quality_mode);
    assert!(processor.require_multimodal);
}

#[test]
fn geometry_check_refuses_small_and_elongated_images() {
    let processor = PalmProcessor::new();
    let small = PalmImage::new(100, 100, 1, vec![128; 10000]);
    assert!(matches!(processor.validate_image_geometry(&small), Err(SableError::CryptoError(_))));
    let good = PalmImage::new(320, 240, 3, vec![128; 320 * 240 * 3]);
    assert!(processor.validate_image_geometry(&good).is_ok());
    let wide = PalmImage::new(401, 200, 1, vec![]);
    assert!(processor.validate_image_geometry(&wide).is_err());
    let exactly_two = PalmImage::new(400, 200, 1, vec![]);
    assert!(processor.validate_image_geometry(&exactly_two).is_ok());
    let tall = PalmImage::new(200, 401, 1, vec![]);
    assert!(processor.validate_image_geometry(&tall).is_err());
}

#[test]
fn settings_and_default_builder() {
    let p = PalmProcessor::with_settings(false, false);
    assert!(!p.high_quality_mode && !p.require_multimodal);
    let d = PalmProcessorBuilder::default().build();
    assert_eq!(d, PalmProcessor::default());
}
