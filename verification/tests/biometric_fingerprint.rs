use sable_core::biometric::fingerprint::{
    direction, hamming_distance, quantize_channels, quantize_colour, unpack, MAGNITUDE_SCALE,
};

#[test]
fn hamming_is_not_a_colour_metric() {
    let red = quantize_colour(&[255, 0, 0]);
    let green = quantize_colour(&[0, 255, 0]);
    let blue = quantize_colour(&[0, 0, 255]);
    let yellow = quantize_colour(&[255, 255, 0]);

    assert_eq!(hamming_distance(red, green), 1, "the order field is categorical");
    assert_eq!(hamming_distance(red, blue), 1, "the order field is categorical");
    assert_eq!(hamming_distance(red, yellow), 4, "the order field is categorical");
    assert!(
        hamming_distance(red, blue) < hamming_distance(red, yellow),
        "opposite colours are closer than adjacent ones"
    );
}

#[test]
fn structured_match_rejects_wrong_colour_direction() {
    let red = quantize_colour(&[255, 0, 0]);
    let green = quantize_colour(&[0, 255, 0]);
    let blue = quantize_colour(&[0, 0, 255]);

    assert!(!sable_core::biometric::fingerprint::matches(green, red, 15, 31));
    assert!(!sable_core::biometric::fingerprint::matches(blue, red, 15, 31));
    assert!(sable_core::biometric::fingerprint::matches(red, red, 0, 0));
}

#[test]
fn structured_match_admits_near_colours() {
    let a = quantize_colour(&[255, 20, 5]);
    let b = quantize_colour(&[250, 26, 8]);
    assert_eq!(unpack(a).order, unpack(b).order);
    assert!(sable_core::biometric::fingerprint::matches(a, b, 2, 0));
}

#[test]
fn expected_colour_has_zero_magnitude() {
    for c in [[255u8, 0, 0], [0, 255, 0], [10, 20, 30], [255, 255, 255]] {
        assert_eq!(quantize_colour(&c) & 0x1F, 0, "{c:?}");
    }
}

#[test]
fn unpack_roundtrips_field_bounds() {
    for fp in [0u16, 0xFFFF, 0x021F, 0xA21F] {
        let f = unpack(fp);
        assert!(f.order <= 7 && f.mid_ratio <= 15 && f.min_ratio <= 15 && f.magnitude <= 31);
    }
}

#[test]
fn pure_red_channels_encode_order_zero_and_full_layout() {
    let fp = quantize_channels([100, 0, 0], MAGNITUDE_SCALE);
    assert_eq!(fp >> 13, 0);
    // magnitude = 100 * 31 / 128 = 24, ratios 0
    assert_eq!(fp, 24);
}

#[test]
fn blue_dominant_tie_prefers_lower_channel() {
    let fp = quantize_channels([0, 0, 100], MAGNITUDE_SCALE);
    assert_eq!(fp >> 13, 4);
}

#[test]
fn zero_channels_encode_zero() {
    assert_eq!(quantize_channels([0, 0, 0], MAGNITUDE_SCALE), 0);
}

#[test]
fn exact_field_values_of_a_mixed_delta() {
    // max 100 (R), mid 50 (G), min 25 (B): order 0, mid 7, min 3, magnitude 24
    let fp = quantize_channels([100, 50, 25], 128);
    let f = unpack(fp);
    assert_eq!((f.order, f.mid_ratio, f.min_ratio, f.magnitude), (0, 7, 3, 24));
    assert_eq!(fp, (7 << 9) | (3 << 5) | 24);
}

#[test]
fn magnitude_saturates_and_scale_changes_magnitude_only() {
    assert_eq!(quantize_channels([128, 0, 0], 128) & 0x1F, 31);
    assert_eq!(quantize_channels([255, 0, 0], 128) & 0x1F, 31);
    let coarse = quantize_channels([8, 4, 2], 128);
    let fine = quantize_channels([8, 4, 2], 16);
    assert_eq!(direction(coarse), direction(fine));
    assert_eq!(coarse & 0x1F, 1);
    assert_eq!(fine & 0x1F, 15);
    // a zero scale counts as 1
    assert_eq!(quantize_channels([8, 4, 2], 0), quantize_channels([8, 4, 2], 1));
}

#[test]
fn magnitude_is_judged_against_a_floor() {
    let expected = quantize_colour(&[255, 0, 0]);
    let weak = quantize_channels([4, 0, 0], MAGNITUDE_SCALE);
    let faint = quantize_channels([8, 0, 0], MAGNITUDE_SCALE);
    assert_eq!(faint & 0x1F, 1);
    assert!(sable_core::biometric::fingerprint::matches(faint, expected, 0, 1));
    assert!(!sable_core::biometric::fingerprint::matches(faint, expected, 0, 2));
    assert!(sable_core::biometric::fingerprint::matches(weak, expected, 0, 0));
    assert!(!sable_core::biometric::fingerprint::matches(weak, expected, 0, 1));
}

#[test]
fn hamming_of_identical_is_zero_and_counts_bits() {
    assert_eq!(hamming_distance(0x1234, 0x1234), 0);
    assert_eq!(hamming_distance(0x0000, 0xFFFF), 16);
    assert_eq!(hamming_distance(0b1010, 0b0101), 4);
}
