use sable_core::biometric::liveness::{
    roi_intensity_range, roi_intensity_totals, LivenessSignals, LivenessThresholds, MultiFrameCapture,
    NirLivenessExtractor, PULSE_AMPLITUDE_MIN, PULSE_FREQUENCY_MIN,
};
use sable_core::biometric::PalmImage;
use sable_core::types::BiometricFeature;

fn create_test_frame(width: u32, height: u32, fill_value: u8) -> PalmImage {
    let data = vec![fill_value; (width * height) as usize];
    PalmImage::new(width, height, 1, data)
}

#[test]
fn liveness_test_threshold_defaults() {
    let thresholds = LivenessThresholds::default();
    assert!(thresholds.validate().is_ok());
    assert_eq!(thresholds.pulse_frequency_min, PULSE_FREQUENCY_MIN);
    assert_eq!(thresholds.pulse_amplitude_min, PULSE_AMPLITUDE_MIN);
}

#[test]
fn test_threshold_validation() {
    let mut bad_thresholds = LivenessThresholds::default();
    bad_thresholds.pulse_frequency_min = bad_thresholds.pulse_frequency_max + 1;
    assert!(bad_thresholds.validate().is_err());
}

#[test]
fn test_cold_environment_thresholds() {
    let cold = LivenessThresholds::cold_environment();
    let default = LivenessThresholds::default();

    assert!(cold.pulse_amplitude_min < default.pulse_amplitude_min);
    assert_eq!(cold.pulse_frequency_min, default.pulse_frequency_min);
}

#[test]
fn test_frame_validation() {
    let extractor = NirLivenessExtractor::new();

    let frames = [
        create_test_frame(640, 480, 128),
        create_test_frame(640, 480, 130),
        create_test_frame(640, 480, 126),
    ];
    assert!(extractor.validate_frames(&frames).is_ok());

    let bad_frames = [
        create_test_frame(640, 480, 128),
        create_test_frame(320, 240, 130),
        create_test_frame(640, 480, 126),
    ];
    assert!(extractor.validate_frames(&bad_frames).is_err());

    let small_frames = [
        create_test_frame(320, 240, 128),
        create_test_frame(320, 240, 130),
        create_test_frame(320, 240, 126),
    ];
    assert!(extractor.validate_frames(&small_frames).is_err());
}

#[test]
fn test_timestamp_validation() {
    let extractor = NirLivenessExtractor::new();

    let valid_ts = [0u64, 100_000, 200_000];
    assert!(extractor.validate_timestamps(&valid_ts).is_ok());

    let bad_ts = [100_000u64, 50_000, 200_000];
    assert!(extractor.validate_timestamps(&bad_ts).is_err());

    let short_ts = [0u64, 50_000, 100_000];
    assert!(extractor.validate_timestamps(&short_ts).is_err());

    let long_ts = [0u64, 200_000, 400_000];
    assert!(extractor.validate_timestamps(&long_ts).is_err());
}

#[test]
fn test_liveness_signals_threshold_check() {
    let signals = LivenessSignals {
        pulse_amplitude: 10000,
        pulse_frequency: 40000,
        vein_contrast_variance: 2000,
        inter_frame_similarity: [60000, 62000],
        frame_features: [[BiometricFeature::default(); 512]; 3],
    };

    let thresholds = LivenessThresholds::default();
    assert!(signals.passes_thresholds(&thresholds));

    let low_amp = LivenessSignals { pulse_amplitude: 1000, ..signals.clone() };
    assert!(!low_amp.passes_thresholds(&thresholds));

    let replay = LivenessSignals { inter_frame_similarity: [65535, 65535], ..signals.clone() };
    assert!(!replay.passes_thresholds(&thresholds));
}

#[test]
fn interval_bounds_are_inclusive() {
    let extractor = NirLivenessExtractor::new();
    assert!(extractor.validate_timestamps(&[0, 80_000, 200_000]).is_ok());
    assert!(extractor.validate_timestamps(&[0, 79_999, 180_000]).is_err());
    assert!(extractor.validate_timestamps(&[0, 120_001, 220_000]).is_err());
}

#[test]
fn witness_widens_and_zeroize_clears() {
    let mut signals = LivenessSignals {
        pulse_amplitude: 7,
        pulse_frequency: 8,
        vein_contrast_variance: 9,
        inter_frame_similarity: [10, 11],
        frame_features: [[BiometricFeature(5); 512]; 3],
    };
    let w = signals.to_circuit_witness();
    assert_eq!((w.pulse_amplitude, w.pulse_frequency, w.vein_contrast_variance), (7, 8, 9));
    assert_eq!(w.inter_frame_similarity, [10, 11]);
    assert_eq!(w.frame_features[2][511], BiometricFeature(5));
    signals.zeroize();
    assert_eq!(signals.pulse_amplitude, 0);
    assert_eq!(signals.inter_frame_similarity, [0, 0]);
    assert!(signals.frame_features.iter().all(|f| f.iter().all(|x| x.0 == 0)));
}

#[test]
fn extractor_with_insane_thresholds_is_refused() {
    let mut t = LivenessThresholds::default();
    t.inter_frame_similarity_min = t.inter_frame_similarity_max;
    assert!(NirLivenessExtractor::with_thresholds(t).is_err());
    let ok = NirLivenessExtractor::with_thresholds(LivenessThresholds::cold_environment()).unwrap();
    assert_eq!(ok.thresholds(), LivenessThresholds::cold_environment());
}

#[test]
fn roi_totals_and_range_cover_the_central_region() {
    // 8 x 4 frame: region is columns 2..6, rows 1..3 (8 pixels).
    let mut data = vec![0u8; 32];
    for y in 1..3 {
        for x in 2..6 {
            data[y * 8 + x] = (10 * (y * 8 + x)) as u8;
        }
    }
    let frame = PalmImage::new(8, 4, 1, data);
    let (sum, count) = roi_intensity_totals(&frame);
    assert_eq!(count, 8);
    assert_eq!(sum, (100 + 110 + 120 + 130 + 180 + 190 + 200 + 210) as u64);
    assert_eq!(roi_intensity_range(&frame), (100, 210));
}

#[test]
fn capture_duration_is_in_whole_milliseconds() {
    let frame = create_test_frame(2, 2, 0);
    let capture = MultiFrameCapture::new([frame.clone(), frame.clone(), frame], [1_000, 101_500, 201_999]);
    assert_eq!(capture.capture_duration_ms(), 200);
}
