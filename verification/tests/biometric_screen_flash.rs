use sable_core::biometric::screen_flash::{
    ScreenFlashExtractor, ScreenFlashSignals, ScreenFlashThresholds, CHANNEL_CONSISTENCY_MAX,
    HIGHLIGHT_SOFTNESS_MIN, REFLECTANCE_GRADIENT_MIN, REFLECTANCE_VARIANCE_MIN,
};
use sable_core::biometric::PalmImage;

fn create_test_image(w: u32, h: u32, channels: u32, fill: u8) -> PalmImage {
    let data = vec![fill; (w * h * channels) as usize];
    PalmImage::new(w, h, channels, data)
}

#[test]
fn screen_flash_test_threshold_defaults() {
    let thresholds = ScreenFlashThresholds::default();
    assert!(thresholds.validate().is_ok());
    assert_eq!(thresholds.reflectance_variance_min, REFLECTANCE_VARIANCE_MIN);
    assert_eq!(thresholds.reflectance_gradient_min, REFLECTANCE_GRADIENT_MIN);
    assert_eq!(thresholds.highlight_softness_min, HIGHLIGHT_SOFTNESS_MIN);
    assert_eq!(thresholds.channel_consistency_max, CHANNEL_CONSISTENCY_MAX);
}

#[test]
fn test_threshold_bad_config() {
    let bad = ScreenFlashThresholds { reflectance_variance_min: 0, ..Default::default() };
    assert!(bad.validate().is_err());

    let bad2 = ScreenFlashThresholds { channel_consistency_max: 0, ..Default::default() };
    assert!(bad2.validate().is_err());
}

#[test]
fn test_threshold_high_security() {
    let high = ScreenFlashThresholds::high_security();
    let default = ScreenFlashThresholds::default();

    assert!(high.validate().is_ok());
    assert!(high.reflectance_variance_min > default.reflectance_variance_min);
    assert!(high.reflectance_gradient_min > default.reflectance_gradient_min);
    assert!(high.highlight_softness_min > default.highlight_softness_min);
    assert!(high.channel_consistency_max < default.channel_consistency_max);
}

#[test]
fn test_dimension_mismatch() {
    let extractor = ScreenFlashExtractor::new();
    let baseline = create_test_image(128, 128, 3, 100);
    let flash = create_test_image(64, 64, 3, 200);

    let result = extractor.validate_inputs(&baseline, &flash);
    assert!(result.is_err());
}

#[test]
fn test_grayscale_rejected() {
    let extractor = ScreenFlashExtractor::new();
    let baseline = create_test_image(128, 128, 1, 100);
    let flash = create_test_image(128, 128, 1, 200);

    let result = extractor.validate_inputs(&baseline, &flash);
    assert!(result.is_err());
}

#[test]
fn test_too_small() {
    let extractor = ScreenFlashExtractor::new();
    let baseline = create_test_image(32, 32, 3, 100);
    let flash = create_test_image(32, 32, 3, 200);

    let result = extractor.validate_inputs(&baseline, &flash);
    assert!(result.is_err());
}

#[test]
fn test_zeroize_clears_signals() {
    let mut signals = ScreenFlashSignals {
        reflectance_variance: 12345,
        reflectance_gradient: 23456,
        highlight_softness: 34567,
        channel_consistency: 45678,
    };

    signals.zeroize();

    assert_eq!(signals.reflectance_variance, 0);
    assert_eq!(signals.reflectance_gradient, 0);
    assert_eq!(signals.highlight_softness, 0);
    assert_eq!(signals.channel_consistency, 0);
}

#[test]
fn test_witness_conversion() {
    let signals = ScreenFlashSignals {
        reflectance_variance: 5000,
        reflectance_gradient: 3000,
        highlight_softness: 15000,
        channel_consistency: 50000,
    };

    let witness = signals.to_circuit_witness();

    assert_eq!(witness.reflectance_variance, 5000u64);
    assert_eq!(witness.reflectance_gradient, 3000u64);
    assert_eq!(witness.highlight_softness, 15000u64);
    assert_eq!(witness.channel_consistency, 50000u64);
}

#[test]
fn test_signals_at_exact_thresholds() {
    let thresholds = ScreenFlashThresholds::default();

    let signals = ScreenFlashSignals {
        reflectance_variance: thresholds.reflectance_variance_min,
        reflectance_gradient: thresholds.reflectance_gradient_min,
        highlight_softness: thresholds.highlight_softness_min,
        channel_consistency: thresholds.channel_consistency_max,
    };
    assert!(signals.passes_thresholds(&thresholds));

    let fail_variance = ScreenFlashSignals {
        reflectance_variance: thresholds.reflectance_variance_min - 1,
        ..signals.clone()
    };
    assert!(!fail_variance.passes_thresholds(&thresholds));

    let fail_consistency = ScreenFlashSignals {
        channel_consistency: thresholds.channel_consistency_max + 1,
        ..signals.clone()
    };
    assert!(!fail_consistency.passes_thresholds(&thresholds));
}

#[test]
fn valid_pair_is_accepted_and_custom_thresholds_apply() {
    let extractor = ScreenFlashExtractor::with_thresholds(ScreenFlashThresholds::high_security()).unwrap();
    let baseline = create_test_image(64, 64, 3, 100);
    let flash = create_test_image(64, 64, 3, 200);
    assert!(extractor.validate_inputs(&baseline, &flash).is_ok());
    let at_default = ScreenFlashSignals {
        reflectance_variance: REFLECTANCE_VARIANCE_MIN,
        reflectance_gradient: REFLECTANCE_GRADIENT_MIN,
        highlight_softness: HIGHLIGHT_SOFTNESS_MIN,
        channel_consistency: CHANNEL_CONSISTENCY_MAX,
    };
    assert!(!extractor.validate_signals(&at_default));
    assert!(ScreenFlashExtractor::new().validate_signals(&at_default));
    let zero = ScreenFlashThresholds { highlight_softness_min: 0, ..Default::default() };
    assert!(ScreenFlashExtractor::with_thresholds(zero).is_err());
}
