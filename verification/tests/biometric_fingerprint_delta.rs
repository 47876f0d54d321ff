use sable_core::biometric::fingerprint::{
    direction, hamming_distance, quantize_channels, quantize_colour, MAGNITUDE_SCALE,
};

/// Fingerprint of a floating-point colour delta: each channel's absolute
/// value rounded, then quantised by the library.
fn quantize_delta_scaled(delta: &[f64; 3], scale: u32) -> u16 {
    quantize_channels(
        [
            delta[0].abs().round() as u32,
            delta[1].abs().round() as u32,
            delta[2].abs().round() as u32,
        ],
        scale,
    )
}

fn quantize_delta(delta: &[f64; 3]) -> u16 {
    quantize_delta_scaled(delta, MAGNITUDE_SCALE)
}

#[test]
fn pure_red_encodes_order_zero() {
    let fp = quantize_delta(&[100.0, 0.0, 0.0]);
    assert_eq!(fp >> 13, 0);
}

#[test]
fn pure_blue_encodes_order_four_or_five() {
    let fp = quantize_delta(&[0.0, 0.0, 100.0]);
    // B dominant; R and G tie at zero, tie-break prefers the lower index (R).
    assert_eq!(fp >> 13, 4);
}

#[test]
fn zero_delta_encodes_zero() {
    assert_eq!(quantize_delta(&[0.0, 0.0, 0.0]), 0);
}

#[test]
fn encoding_is_sign_invariant() {
    let a = quantize_delta(&[80.0, -40.0, 20.0]);
    let b = quantize_delta(&[-80.0, 40.0, -20.0]);
    assert_eq!(a, b);
}

#[test]
fn magnitude_saturates_at_scale() {
    let at = quantize_delta(&[MAGNITUDE_SCALE as f64, 0.0, 0.0]) & 0x1F;
    let beyond = quantize_delta(&[255.0, 0.0, 0.0]) & 0x1F;
    assert_eq!(at, 31);
    assert_eq!(beyond, 31);
}

#[test]
fn same_direction_different_magnitude_shares_direction_bits() {
    let a = quantize_delta(&[100.0, 50.0, 25.0]);
    let b = quantize_delta(&[40.0, 20.0, 10.0]);
    assert_eq!(a >> 5, b >> 5, "direction bits should agree");
    assert_ne!(a & 0x1F, b & 0x1F, "magnitude should differ");
}

#[test]
fn hamming_of_identical_is_zero() {
    let fp = quantize_delta(&[10.0, 20.0, 30.0]);
    assert_eq!(hamming_distance(fp, fp), 0);
}

#[test]
fn structured_match_treats_magnitude_as_a_floor() {
    let expected = quantize_colour(&[255, 0, 0]);
    let weak = quantize_delta(&[4.0, 0.0, 0.0]); // magnitude 0 at scale 128
    let faint = quantize_delta(&[8.0, 0.0, 0.0]); // magnitude 1
    assert_eq!(faint & 0x1F, 1);
    assert!(sable_core::biometric::fingerprint::matches(faint, expected, 0, 1));
    assert!(sable_core::biometric::fingerprint::matches(faint, expected, 0, 0));
    assert!(!sable_core::biometric::fingerprint::matches(faint, expected, 0, 2));
    assert!(sable_core::biometric::fingerprint::matches(weak, expected, 0, 0));
    assert!(!sable_core::biometric::fingerprint::matches(weak, expected, 0, 1));
}

#[test]
fn scaled_quantiser_rescales_magnitude_only() {
    let d = [8.0, 4.0, 2.0];
    let coarse = quantize_delta_scaled(&d, 128);
    let fine = quantize_delta_scaled(&d, 16);
    assert_eq!(direction(coarse), direction(fine));
    assert_eq!(coarse & 0x1F, 1);
    assert_eq!(fine & 0x1F, 15);
    assert_eq!(quantize_delta(&d), coarse);
}
