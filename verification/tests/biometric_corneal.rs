use sable_core::biometric::corneal::{agrees, expected_composite, glint_fingerprint, NUM_QUADRANTS};
use sable_core::biometric::PalmImage;

const EQUAL: [u32; NUM_QUADRANTS] = [1, 1, 1, 1];

fn eye(dim: u32, rgb: [u8; 3]) -> PalmImage {
    let mut data = Vec::with_capacity((dim * dim * 3) as usize);
    for _ in 0..(dim * dim) {
        data.extend_from_slice(&rgb);
    }
    PalmImage { width: dim, height: dim, channels: 3, data, preprocessing_steps: vec![] }
}

#[test]
fn red_dominant_glint_encodes_order_zero() {
    let base = eye(16, [0, 0, 0]);
    let flash = eye(16, [200, 30, 10]);
    let fp = glint_fingerprint(&base, &flash).unwrap();
    assert_eq!(fp >> 13, 0, "red-dominant glint should encode order 0");
}

#[test]
fn rejects_undersized_eye_region() {
    let tiny = eye(4, [10, 10, 10]);
    assert!(glint_fingerprint(&tiny, &tiny).is_err());
}

#[test]
fn rejects_mismatched_eye_dimensions() {
    let a = eye(16, [0, 0, 0]);
    let b = eye(24, [0, 0, 0]);
    assert!(glint_fingerprint(&a, &b).is_err());
}

#[test]
fn rejects_eye_dimensions_above_grammar_bound() {
    let mut big = eye(16, [0, 0, 0]);
    big.width = 8192;
    big.height = 8192;
    let base = eye(16, [0, 0, 0]);
    assert!(glint_fingerprint(&base, &big).is_err());
}

#[test]
fn rejects_eye_length_computation_overflow() {
    let base = PalmImage {
        width: 3_062_868_337,
        height: 2_007_567_422,
        channels: 3,
        data: vec![0u8; 26],
        preprocessing_steps: vec![],
    };
    let mut evil = base.clone();
    evil.data = vec![1u8; 26];
    assert!(
        glint_fingerprint(&base, &evil).is_err(),
        "overflowing eye dimensions must be rejected, not wrapped"
    );
}

#[test]
fn zero_delta_glint_encodes_zero() {
    let same = eye(16, [90, 90, 90]);
    assert_eq!(glint_fingerprint(&same, &same).unwrap(), 0);
}

#[test]
fn glint_matching_this_round_composite_agrees() {
    let colours = [[255, 0, 0], [255, 40, 0], [200, 20, 0], [255, 10, 10]];
    let expected = expected_composite(&colours, &EQUAL).unwrap();

    let base = eye(16, [0, 0, 0]);
    let flash = eye(16, [241, 17, 2]);
    let observed = glint_fingerprint(&base, &flash).unwrap();

    assert!(
        agrees(observed, expected, 2, 2),
        "observed {observed:#06x} should agree with expected {expected:#06x}"
    );
}

#[test]
fn glint_matching_the_previous_round_is_rejected() {
    let this_round = [[255, 0, 0], [255, 40, 0], [200, 20, 0], [255, 10, 10]];
    let prev_round = [[0, 0, 255], [0, 40, 255], [0, 20, 200], [10, 10, 255]];

    let expected = expected_composite(&this_round, &EQUAL).unwrap();
    let stale = expected_composite(&prev_round, &EQUAL).unwrap();

    assert!(
        !agrees(stale, expected, 15, 31),
        "a glint reflecting the previous round must not agree with this one"
    );
}

#[test]
fn composite_is_area_weighted() {
    let colours = [[255, 0, 0], [0, 0, 0], [0, 0, 0], [0, 0, 0]];
    let red_heavy = expected_composite(&colours, &[100, 1, 1, 1]).unwrap();
    let red_light = expected_composite(&colours, &[1, 100, 100, 100]).unwrap();
    assert_ne!(red_heavy, red_light, "composite must respond to quadrant areas");
}

#[test]
fn zero_weights_are_rejected() {
    let colours = [[255, 0, 0], [0, 255, 0], [0, 0, 255], [255, 255, 0]];
    assert!(expected_composite(&colours, &[0, 0, 0, 0]).is_err());
}

#[test]
fn glint_is_sign_invariant() {
    let dark = eye(8, [10, 60, 200]);
    let bright = eye(8, [200, 20, 50]);
    assert_eq!(glint_fingerprint(&dark, &bright).unwrap(), glint_fingerprint(&bright, &dark).unwrap());
}

#[test]
fn glint_rounds_the_mean_to_nearest() {
    // 64 pixels: half with +1 red, half with 0 -> mean 0.5 rounds up to 1
    let base = eye(8, [0, 0, 0]);
    let mut flash = eye(8, [0, 0, 0]);
    for i in 0..32 {
        flash.data[i * 3] = 1;
    }
    let fp = glint_fingerprint(&base, &flash).unwrap();
    // max channel 1 at scale 128 -> magnitude 0, order 0, ratios 0
    assert_eq!(fp, 0);
    let mut flash3 = eye(8, [0, 0, 0]);
    for i in 0..64 {
        flash3.data[i * 3] = 9;
    }
    // mean 9 -> magnitude 9 * 31 / 128 = 2
    assert_eq!(glint_fingerprint(&base, &flash3).unwrap(), 2);
}

#[test]
fn rejects_grayscale_and_short_buffers() {
    let mut gray = eye(8, [0, 0, 0]);
    gray.channels = 1;
    assert!(glint_fingerprint(&gray, &gray).is_err());
    let mut short = eye(8, [0, 0, 0]);
    short.data.pop();
    assert!(glint_fingerprint(&eye(8, [0, 0, 0]), &short).is_err());
}
