use sable_core::biometric::photometric::{extract, PatchGrid, NUM_QUADRANTS, Q15_ONE};
use sable_core::biometric::PalmImage;

const DIM: u32 = 96;
const LAMPS: [[f64; 3]; 4] = [
    [-35.0, 35.0, 350.0],
    [35.0, 35.0, 350.0],
    [-35.0, -35.0, 350.0],
    [35.0, -35.0, 350.0],
];
const COLOURS: [[u8; 3]; 4] = [[255, 0, 0], [0, 255, 0], [0, 0, 255], [255, 255, 0]];
const EXTENT: f64 = 60.0;

fn blank(dim: u32, level: u8) -> PalmImage {
    PalmImage {
        width: dim,
        height: dim,
        channels: 3,
        data: vec![level; (dim * dim * 3) as usize],
        preprocessing_steps: vec![],
    }
}

fn render(normal_at: impl Fn(f64, f64) -> [f64; 3], gain: f64) -> PalmImage {
    let dim = DIM as usize;
    let mut img = blank(DIM, 0);
    for py in 0..dim {
        for px in 0..dim {
            let x = (px as f64 + 0.5) / dim as f64 * 2.0 * EXTENT - EXTENT;
            let y = EXTENT - (py as f64 + 0.5) / dim as f64 * 2.0 * EXTENT;
            let n = normal_at(x, y);
            let mut acc = [0.0f64; 3];
            for (k, lamp) in LAMPS.iter().enumerate() {
                let d = [lamp[0] - x, lamp[1] - y, lamp[2]];
                let r = (d[0] * d[0] + d[1] * d[1] + d[2] * d[2]).sqrt();
                let ndl = (n[0] * d[0] + n[1] * d[1] + n[2] * d[2]) / r;
                let irr = ndl.max(0.0) / (r * r) * 1.0e7 * gain;
                for c in 0..3 {
                    acc[c] += irr * COLOURS[k][c] as f64 / 255.0;
                }
            }
            let idx = (py * dim + px) * 3;
            for c in 0..3 {
                img.data[idx + c] = acc[c].round().clamp(0.0, 255.0) as u8;
            }
        }
    }
    img
}

fn plane(_x: f64, _y: f64) -> [f64; 3] {
    [0.0, 0.0, 1.0]
}

fn hemisphere(x: f64, y: f64) -> [f64; 3] {
    const R: f64 = 90.0;
    let z = (R * R - x * x - y * y).max(1.0).sqrt();
    let m = (x * x + y * y + z * z).sqrt();
    [x / m, y / m, z / m]
}

#[test]
fn single_lamp_dominates_its_own_colour_channel() {
    let base = blank(DIM, 0);
    let mut flash = blank(DIM, 0);
    for px in flash.data.chunks_mut(3) {
        px[0] = 120;
    }
    let out = extract(&base, &flash, &COLOURS, PatchGrid::default()).unwrap();
    assert_eq!(out.responses.len(), 16);
    for r in &out.responses {
        let best = r.iter().enumerate().max_by_key(|(_, v)| **v).unwrap().0;
        assert_eq!(best, 0, "pure red delta should favour the red lamp");
    }
}

#[test]
fn rejects_mismatched_dimensions() {
    let base = blank(DIM, 0);
    let flash = blank(DIM + 32, 0);
    assert!(extract(&base, &flash, &COLOURS, PatchGrid::default()).is_err());
}

#[test]
fn rejects_grid_outside_bounds() {
    let base = blank(DIM, 0);
    let flash = blank(DIM, 10);
    assert!(extract(&base, &flash, &COLOURS, PatchGrid { n: 1 }).is_err());
    assert!(extract(&base, &flash, &COLOURS, PatchGrid { n: 9 }).is_err());
}

#[test]
fn rejects_undersized_frame() {
    let small = blank(32, 0);
    assert!(extract(&small, &small, &COLOURS, PatchGrid::default()).is_err());
}

#[test]
fn response_count_matches_grid() {
    let base = blank(DIM, 0);
    let flash = blank(DIM, 40);
    for n in 2..=8 {
        let out = extract(&base, &flash, &COLOURS, PatchGrid { n }).unwrap();
        assert_eq!(out.responses.len(), n * n);
        assert_eq!(out.mixes.len(), n * n);
    }
}

#[test]
fn each_mix_sums_to_unity_or_zero() {
    let base = blank(DIM, 10);
    let flash = render(hemisphere, 1.0);
    let out = extract(&base, &flash, &COLOURS, PatchGrid::default()).unwrap();
    for m in &out.mixes {
        let total: i64 = m.iter().sum();
        assert!(
            total == 0 || (total - Q15_ONE).abs() <= NUM_QUADRANTS as i64,
            "mix sum {total} is neither zero nor Q15 unity"
        );
    }
}

#[test]
fn zero_delta_yields_zero_mix_not_a_fault() {
    let base = blank(DIM, 77);
    let flash = blank(DIM, 77);
    let out = extract(&base, &flash, &COLOURS, PatchGrid::default()).unwrap();
    assert!(out.mixes.iter().all(|m| m.iter().all(|&v| v == 0)));
    assert_eq!(out.convexity_score, 0);
}

#[test]
fn uniform_illumination_yields_near_zero_convexity() {
    let base = blank(DIM, 0);
    let mut flash = blank(DIM, 0);
    for px in flash.data.chunks_mut(3) {
        px[0] = 90;
        px[1] = 60;
        px[2] = 30;
    }
    let out = extract(&base, &flash, &COLOURS, PatchGrid::default()).unwrap();
    assert_eq!(
        out.convexity_score, 0,
        "spatially uniform illumination must produce zero cross-patch variation"
    );
}

#[test]
fn convexity_separates_plane_from_hemisphere() {
    let base = blank(DIM, 0);
    let flat = render(plane, 1.0);
    let curved = render(hemisphere, 1.0);

    let flat_score = extract(&base, &flat, &COLOURS, PatchGrid::default()).unwrap().convexity_score;
    let curved_score = extract(&base, &curved, &COLOURS, PatchGrid::default()).unwrap().convexity_score;

    println!("convexity: plane={flat_score} hemisphere={curved_score}");
    assert!(curved_score > flat_score, "hemisphere ({curved_score}) must score above plane ({flat_score})");
    assert!(
        curved_score >= flat_score.saturating_mul(2),
        "separation too weak: hemisphere {curved_score} vs plane {flat_score}"
    );
}

#[test]
fn convexity_is_invariant_to_uniform_gain() {
    let base = blank(DIM, 0);
    let reference = extract(&base, &render(hemisphere, 1.0), &COLOURS, PatchGrid::default())
        .unwrap()
        .convexity_score as i32;

    const TOLERANCE: i32 = 1285;
    for gain in [0.5, 0.75, 1.5, 2.0] {
        let score = extract(&base, &render(hemisphere, gain), &COLOURS, PatchGrid::default())
            .unwrap()
            .convexity_score as i32;
        assert!(
            (score - reference).abs() <= TOLERANCE,
            "gain {gain}: score {score} deviates from {reference} beyond the gain tolerance"
        );
    }
}

#[test]
fn exact_response_and_mix_of_a_uniform_red_change() {
    // A +100 red change everywhere: patch deltas (100, 0, 0). The red lamp
    // (norm 255) responds 100 * 255 * 65536 / 255 = 6553600; green and blue
    // do not respond; yellow (norm 360) responds 100 * 255 * 65536 / 360.
    let base = blank(64, 0);
    let mut flash = blank(64, 0);
    for px in flash.data.chunks_mut(3) {
        px[0] = 100;
    }
    let out = extract(&base, &flash, &COLOURS, PatchGrid { n: 2 }).unwrap();
    let yellow = 100 * 255 * 65536 / 360;
    assert_eq!(out.responses[0], [6553600, 0, 0, yellow]);
    let total = 6553600 + yellow;
    assert_eq!(out.mixes[3], [6553600 * 32768 / total, 0, 0, yellow * 32768 / total]);
    assert_eq!(out.convexity_score, 0);
}

#[test]
fn rejects_short_buffers_and_non_rgb() {
    let mut short = blank(64, 0);
    short.data.pop();
    assert!(extract(&blank(64, 0), &short, &COLOURS, PatchGrid::default()).is_err());
    let mut gray = blank(64, 0);
    gray.channels = 1;
    assert!(extract(&gray, &gray, &COLOURS, PatchGrid::default()).is_err());
}
