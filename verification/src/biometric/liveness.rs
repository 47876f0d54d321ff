//! Passive near-infrared liveness: thresholds on pulse, vein-contrast and
//! inter-frame signals, and the checks on a three-frame capture.
//!
//! All signal values are 16-bit fixed point (`value / 65536`). They are
//! private circuit inputs; callers learn only an aggregate pass or fail.

use vstd::prelude::*;
use crate::biometric::image::{lemma_positions_fit, pixel_at, positions_fit, PalmImage};
use crate::error::{invalid_input, Result, SableError};
use crate::types::BiometricFeature;

verus! {

/// Minimum pulse frequency (0.5 Hz).
pub const PULSE_FREQUENCY_MIN: u16 = 32768;

/// Maximum pulse frequency, as used for range checking.
pub const PULSE_FREQUENCY_MAX: u16 = 49152;

/// Minimum pulse amplitude (0.10, above the noise floor).
pub const PULSE_AMPLITUDE_MIN: u16 = 6554;

/// Minimum vein contrast variance (0.02).
pub const VEIN_CONTRAST_VARIANCE_MIN: u16 = 1311;

/// Minimum inter-frame similarity (0.85).
pub const INTER_FRAME_SIMILARITY_MIN: u16 = 55706;

/// Maximum inter-frame similarity (0.99; above it the frames are a replay).
pub const INTER_FRAME_SIMILARITY_MAX: u16 = 64881;

/// Expected inter-frame interval in microseconds.
pub const FRAME_INTERVAL_TARGET_US: u64 = 100_000;

/// Frame interval tolerance in microseconds.
pub const FRAME_INTERVAL_TOLERANCE_US: u64 = 20_000;

/// Number of frames required for liveness analysis.
pub const REQUIRED_FRAME_COUNT: usize = 3;

/// Feature vector dimension for each frame.
pub const FEATURES_PER_FRAME: usize = 512;

/// Liveness thresholds, each 16-bit fixed point.
#[derive(Debug, Clone, Copy, PartialEq, Eq, Structural)]
pub struct LivenessThresholds {
    /// Minimum pulse frequency.
    pub pulse_frequency_min: u16,
    /// Maximum pulse frequency.
    pub pulse_frequency_max: u16,
    /// Minimum pulse amplitude.
    pub pulse_amplitude_min: u16,
    /// Minimum vein contrast variance.
    pub vein_contrast_variance_min: u16,
    /// Minimum inter-frame similarity.
    pub inter_frame_similarity_min: u16,
    /// Maximum inter-frame similarity.
    pub inter_frame_similarity_max: u16,
}

/// The default thresholds.
pub open spec fn default_liveness_thresholds() -> LivenessThresholds {
    LivenessThresholds {
        pulse_frequency_min: PULSE_FREQUENCY_MIN,
        pulse_frequency_max: PULSE_FREQUENCY_MAX,
        pulse_amplitude_min: PULSE_AMPLITUDE_MIN,
        vein_contrast_variance_min: VEIN_CONTRAST_VARIANCE_MIN,
        inter_frame_similarity_min: INTER_FRAME_SIMILARITY_MIN,
        inter_frame_similarity_max: INTER_FRAME_SIMILARITY_MAX,
    }
}

/// Whether a threshold configuration is sane: each minimum below its
/// maximum.
pub open spec fn liveness_thresholds_ok(t: LivenessThresholds) -> bool {
    t.pulse_frequency_min < t.pulse_frequency_max && t.inter_frame_similarity_min
        < t.inter_frame_similarity_max
}

impl Default for LivenessThresholds {
    /// The research-validated default thresholds.
    fn default() -> (t: Self)
        ensures
            t == default_liveness_thresholds(),
    {
        LivenessThresholds {
            pulse_frequency_min: PULSE_FREQUENCY_MIN,
            pulse_frequency_max: PULSE_FREQUENCY_MAX,
            pulse_amplitude_min: PULSE_AMPLITUDE_MIN,
            vein_contrast_variance_min: VEIN_CONTRAST_VARIANCE_MIN,
            inter_frame_similarity_min: INTER_FRAME_SIMILARITY_MIN,
            inter_frame_similarity_max: INTER_FRAME_SIMILARITY_MAX,
        }
    }
}

impl LivenessThresholds {
    /// Thresholds for cold environments: the pulse amplitude minimum is
    /// halved (blood flow may be reduced); the others are the defaults.
    pub fn cold_environment() -> (t: Self)
        ensures
            t == (LivenessThresholds {
                pulse_amplitude_min: PULSE_AMPLITUDE_MIN / 2,
                ..default_liveness_thresholds()
            }),
    {
        LivenessThresholds {
            pulse_frequency_min: PULSE_FREQUENCY_MIN,
            pulse_frequency_max: PULSE_FREQUENCY_MAX,
            pulse_amplitude_min: PULSE_AMPLITUDE_MIN / 2,
            vein_contrast_variance_min: VEIN_CONTRAST_VARIANCE_MIN,
            inter_frame_similarity_min: INTER_FRAME_SIMILARITY_MIN,
            inter_frame_similarity_max: INTER_FRAME_SIMILARITY_MAX,
        }
    }

    /// Checks that the configuration is sane.
    pub fn validate(&self) -> (r: Result<()>)
        ensures
            r is Ok <==> liveness_thresholds_ok(*self),
            r matches Err(e) ==> e is InvalidInput,
    {
        if self.pulse_frequency_min >= self.pulse_frequency_max {
            return Err(invalid_input("Invalid threshold configuration"));
        }
        if self.inter_frame_similarity_min >= self.inter_frame_similarity_max {
            return Err(invalid_input("Invalid threshold configuration"));
        }
        Ok(())
    }
}

/// Liveness signals extracted from a three-frame capture.
#[derive(Clone)]
pub struct LivenessSignals {
    /// Peak-to-peak variation of vein intensity.
    pub pulse_amplitude: u16,
    /// Dominant frequency of vein pulsation.
    pub pulse_frequency: u16,
    /// Temporal variation of the vein/background contrast.
    pub vein_contrast_variance: u16,
    /// Similarity of frames 0 and 1, then of frames 1 and 2.
    pub inter_frame_similarity: [u16; 2],
    /// Feature vectors of each frame.
    pub frame_features: [[BiometricFeature; FEATURES_PER_FRAME]; REQUIRED_FRAME_COUNT],
}

/// Whether signals pass thresholds: frequency within its range, amplitude
/// and contrast variance at least their minimums, and both similarities
/// within their range (similar, but not identical).
pub open spec fn liveness_passes(s: LivenessSignals, t: LivenessThresholds) -> bool {
    &&& t.pulse_frequency_min <= s.pulse_frequency <= t.pulse_frequency_max
    &&& s.pulse_amplitude >= t.pulse_amplitude_min
    &&& s.vein_contrast_variance >= t.vein_contrast_variance_min
    &&& t.inter_frame_similarity_min <= s.inter_frame_similarity[0] <= t.inter_frame_similarity_max
    &&& t.inter_frame_similarity_min <= s.inter_frame_similarity[1] <= t.inter_frame_similarity_max
}

/// Circuit witness form of liveness signals: each value widened to `u64`.
#[derive(Clone)]
pub struct LivenessWitness {
    /// Pulse amplitude.
    pub pulse_amplitude: u64,
    /// Pulse frequency.
    pub pulse_frequency: u64,
    /// Vein contrast variance.
    pub vein_contrast_variance: u64,
    /// Inter-frame similarity scores.
    pub inter_frame_similarity: [u64; 2],
    /// Feature vectors of each frame.
    pub frame_features: [[BiometricFeature; FEATURES_PER_FRAME]; REQUIRED_FRAME_COUNT],
}

impl LivenessSignals {
    /// Whether all signals pass the thresholds; which one failed is not
    /// revealed.
    pub fn passes_thresholds(&self, thresholds: &LivenessThresholds) -> (b: bool)
        ensures
            b == liveness_passes(*self, *thresholds),
    {
        let freq_ok = self.pulse_frequency >= thresholds.pulse_frequency_min && self.pulse_frequency
            <= thresholds.pulse_frequency_max;
        let amp_ok = self.pulse_amplitude >= thresholds.pulse_amplitude_min;
        let variance_ok = self.vein_contrast_variance >= thresholds.vein_contrast_variance_min;
        let s0 = self.inter_frame_similarity[0];
        let s1 = self.inter_frame_similarity[1];
        let sim_ok = s0 >= thresholds.inter_frame_similarity_min && s0
            <= thresholds.inter_frame_similarity_max && s1 >= thresholds.inter_frame_similarity_min
            && s1 <= thresholds.inter_frame_similarity_max;
        freq_ok && amp_ok && variance_ok && sim_ok
    }

    /// The circuit witness: the same values widened to `u64`.
    pub fn to_circuit_witness(&self) -> (w: LivenessWitness)
        ensures
            w.pulse_amplitude == self.pulse_amplitude,
            w.pulse_frequency == self.pulse_frequency,
            w.vein_contrast_variance == self.vein_contrast_variance,
            w.inter_frame_similarity[0] == self.inter_frame_similarity[0],
            w.inter_frame_similarity[1] == self.inter_frame_similarity[1],
            w.frame_features == self.frame_features,
    {
        LivenessWitness {
            pulse_amplitude: self.pulse_amplitude as u64,
            pulse_frequency: self.pulse_frequency as u64,
            vein_contrast_variance: self.vein_contrast_variance as u64,
            inter_frame_similarity: [
                self.inter_frame_similarity[0] as u64,
                self.inter_frame_similarity[1] as u64,
            ],
            frame_features: self.frame_features,
        }
    }

    /// Clears every signal value and every feature.
    pub fn zeroize(&mut self)
        ensures
            final(self).pulse_amplitude == 0,
            final(self).pulse_frequency == 0,
            final(self).vein_contrast_variance == 0,
            final(self).inter_frame_similarity[0] == 0,
            final(self).inter_frame_similarity[1] == 0,
            forall|i: int, j: int|
                0 <= i < 3 && 0 <= j < 512 ==> (#[trigger] final(self).frame_features[i][j]).0 == 0,
    {
        self.pulse_amplitude = 0;
        self.pulse_frequency = 0;
        self.vein_contrast_variance = 0;
        self.inter_frame_similarity = [0, 0];
        self.frame_features = [[BiometricFeature(0); FEATURES_PER_FRAME]; REQUIRED_FRAME_COUNT];
    }
}

/// Whether three frames are accepted: all of the dimensions and channel
/// count of the first, which is at least 640 x 480.
pub open spec fn frames_accepted(frames: [PalmImage; 3]) -> bool {
    &&& frames[1].width == frames[0].width && frames[1].height == frames[0].height
        && frames[1].channels == frames[0].channels
    &&& frames[2].width == frames[0].width && frames[2].height == frames[0].height
        && frames[2].channels == frames[0].channels
    &&& frames[0].width >= 640 && frames[0].height >= 480
}

/// Whether capture timestamps are accepted: strictly increasing, each
/// interval within the tolerance of the 100 ms target.
pub open spec fn timestamps_accepted(ts: [u64; 3]) -> bool {
    &&& ts[0] < ts[1] < ts[2]
    &&& 80_000 <= ts[1] - ts[0] <= 120_000
    &&& 80_000 <= ts[2] - ts[1] <= 120_000
}

/// Extracts and checks liveness signals from a three-frame NIR capture.
pub struct NirLivenessExtractor {
    thresholds: LivenessThresholds,
}

impl NirLivenessExtractor {
    /// The thresholds in use.
    pub closed spec fn thresholds_of(&self) -> LivenessThresholds {
        self.thresholds
    }

    /// An extractor with the default thresholds.
    pub fn new() -> (e: Self)
        ensures
            e.thresholds_of() == default_liveness_thresholds(),
    {
        NirLivenessExtractor { thresholds: LivenessThresholds::default() }
    }

    /// An extractor with custom thresholds; insane ones are refused.
    pub fn with_thresholds(thresholds: LivenessThresholds) -> (r: Result<Self>)
        ensures
            r is Ok <==> liveness_thresholds_ok(thresholds),
            r matches Ok(e) ==> e.thresholds_of() == thresholds,
            r matches Err(e) ==> e is InvalidInput,
    {
        let checked = thresholds.validate();
        match checked {
            Ok(()) => Ok(NirLivenessExtractor { thresholds }),
            Err(e) => Err(e),
        }
    }

    /// The thresholds in use.
    pub fn thresholds(&self) -> (t: LivenessThresholds)
        ensures
            t == self.thresholds_of(),
    {
        self.thresholds
    }

    /// Whether signals pass this extractor's thresholds (pass or fail only).
    pub fn validate_signals(&self, signals: &LivenessSignals) -> (b: bool)
        ensures
            b == liveness_passes(*signals, self.thresholds_of()),
    {
        signals.passes_thresholds(&self.thresholds)
    }

    /// Checks that three frames share dimensions and channels and are at
    /// least 640 x 480. The error does not say which frame failed.
    pub fn validate_frames(&self, frames: &[PalmImage; 3]) -> (r: Result<()>)
        ensures
            r is Ok <==> frames_accepted(*frames),
            r matches Err(e) ==> e is InvalidInput,
    {
        let w = frames[0].width;
        let h = frames[0].height;
        let c = frames[0].channels;
        let mut i: usize = 1;
        while i < 3
            invariant
                1 <= i <= 3,
                w == frames[0].width,
                h == frames[0].height,
                c == frames[0].channels,
                forall|j: int|
                    1 <= j < i ==> (#[trigger] frames[j]).width == w && frames[j].height == h
                        && frames[j].channels == c,
            decreases 3 - i,
        {
            if frames[i].width != w || frames[i].height != h || frames[i].channels != c {
                return Err(invalid_input("Frame dimension mismatch"));
            }
            i = i + 1;
        }
        if w < 640 || h < 480 {
            return Err(invalid_input("Insufficient frame resolution"));
        }
        Ok(())
    }

    /// Checks that timestamps (microseconds) increase strictly and that each
    /// interval is within 20 ms of 100 ms.
    pub fn validate_timestamps(&self, timestamps: &[u64; 3]) -> (r: Result<()>)
        ensures
            r is Ok <==> timestamps_accepted(*timestamps),
            r matches Err(e) ==> e is InvalidInput,
    {
        if timestamps[0] >= timestamps[1] || timestamps[1] >= timestamps[2] {
            return Err(invalid_input("Timestamps must be monotonically increasing"));
        }
        let mut i: usize = 0;
        while i < 2
            invariant
                i <= 2,
                timestamps[0] < timestamps[1] < timestamps[2],
                i >= 1 ==> 80_000 <= timestamps[1] - timestamps[0] <= 120_000,
                i >= 2 ==> 80_000 <= timestamps[2] - timestamps[1] <= 120_000,
            decreases 2 - i,
        {
            let interval = timestamps[i + 1] - timestamps[i];
            let min_interval = FRAME_INTERVAL_TARGET_US - FRAME_INTERVAL_TOLERANCE_US;
            let max_interval = FRAME_INTERVAL_TARGET_US + FRAME_INTERVAL_TOLERANCE_US;
            if interval < min_interval || interval > max_interval {
                return Err(invalid_input("Frame interval out of tolerance"));
            }
            i = i + 1;
        }
        Ok(())
    }
}

impl Default for NirLivenessExtractor {
    /// An extractor with the default thresholds.
    fn default() -> (e: Self)
        ensures
            e.thresholds_of() == default_liveness_thresholds(),
    {
        NirLivenessExtractor::new()
    }
}

/// Sum of channel 0 over row `y` of the region, columns `[x0, x)`, counting
/// only pixels present in the buffer, with the number counted.
pub open spec fn roi_row_totals(frame: PalmImage, y: int, x0: int, x: int) -> (int, int)
    decreases x - x0,
{
    if x <= x0 {
        (0, 0)
    } else {
        let prev = roi_row_totals(frame, y, x0, x - 1);
        match pixel_at(frame, x - 1, y, 0) {
            Some(v) => (prev.0 + v, prev.1 + 1),
            None => prev,
        }
    }
}

/// Sum of channel 0 over rows `[y0, y)` of the region, with the number of
/// pixels counted.
pub open spec fn roi_totals(frame: PalmImage, y0: int, y: int) -> (int, int)
    decreases y - y0,
{
    if y <= y0 {
        (0, 0)
    } else {
        let prev = roi_totals(frame, y0, y - 1);
        let row = roi_row_totals(frame, y - 1, (frame.width / 4) as int, (frame.width / 4 + frame.width / 2) as int);
        (prev.0 + row.0, prev.1 + row.1)
    }
}

/// Sum and count of the channel-0 intensities present in the central region
/// of a frame; the mean intensity of the region is their ratio.
pub fn roi_intensity_totals(frame: &PalmImage) -> (r: (u64, u64))
    requires
        positions_fit(*frame),
    ensures
        r.0 == roi_totals(*frame, (frame.height / 4) as int, (frame.height / 4 + frame.height / 2) as int).0,
        r.1 == roi_totals(*frame, (frame.height / 4) as int, (frame.height / 4 + frame.height / 2) as int).1,
{
    let roi_x = frame.width / 4;
    let roi_y = frame.height / 4;
    let roi_w = frame.width / 2;
    let roi_h = frame.height / 2;
    let mut sum: u64 = 0;
    let mut count: u64 = 0;
    let mut y = roi_y;
    assert(frame.channels >= 1 ==> roi_h * roi_w <= u32::MAX) by (nonlinear_arith)
        requires
            frame.width * frame.height * frame.channels <= u32::MAX,
            roi_w <= frame.width,
            roi_h <= frame.height,
    ;
    while y < roi_y + roi_h
        invariant
            positions_fit(*frame),
            roi_x == frame.width / 4,
            roi_y == frame.height / 4,
            roi_w == frame.width / 2,
            roi_h == frame.height / 2,
            frame.channels >= 1 ==> roi_h * roi_w <= u32::MAX,
            roi_y <= y <= roi_y + roi_h,
            sum == roi_totals(*frame, roi_y as int, y as int).0,
            count == roi_totals(*frame, roi_y as int, y as int).1,
            count <= (y - roi_y) * roi_w,
            frame.channels == 0 ==> count == 0,
            sum <= 255 * count,
        decreases roi_y + roi_h - y,
    {
        let mut row_sum: u64 = 0;
        let mut row_count: u64 = 0;
        let mut x = roi_x;
        while x < roi_x + roi_w
            invariant
                positions_fit(*frame),
                roi_x == frame.width / 4,
                roi_w == frame.width / 2,
                roi_x <= x <= roi_x + roi_w,
                row_sum == roi_row_totals(*frame, y as int, roi_x as int, x as int).0,
                row_count == roi_row_totals(*frame, y as int, roi_x as int, x as int).1,
                row_count <= x - roi_x,
                frame.channels == 0 ==> row_count == 0,
                row_sum <= 255 * row_count,
            decreases roi_x + roi_w - x,
        {
            proof { lemma_positions_fit(*frame, x as int, y as int, 0); }
            let got = frame.get_pixel(x, y, 0);
            if let Ok(pixel) = got {
                row_sum = row_sum + pixel as u64;
                row_count = row_count + 1;
            }
            x = x + 1;
        }
        assert((y - roi_y) * roi_w + roi_w == (y + 1 - roi_y) * roi_w) by (nonlinear_arith);
        assert(frame.channels >= 1 ==> (y + 1 - roi_y) * roi_w <= roi_h * roi_w) by (nonlinear_arith)
            requires
                y + 1 - roi_y <= roi_h,
        ;
        sum = sum + row_sum;
        count = count + row_count;
        y = y + 1;
    }
    (sum, count)
}

/// Lowest and highest channel-0 intensity over row `y` of the region,
/// columns `[x0, x)`, starting from `(255, 0)`.
pub open spec fn roi_row_range(frame: PalmImage, y: int, x0: int, x: int) -> (u8, u8)
    decreases x - x0,
{
    if x <= x0 {
        (255, 0)
    } else {
        let prev = roi_row_range(frame, y, x0, x - 1);
        match pixel_at(frame, x - 1, y, 0) {
            Some(v) => (
                if v < prev.0 { v } else { prev.0 },
                if v > prev.1 { v } else { prev.1 },
            ),
            None => prev,
        }
    }
}

/// Lowest and highest channel-0 intensity over rows `[y0, y)` of the
/// region, starting from `(255, 0)`.
pub open spec fn roi_range(frame: PalmImage, y0: int, y: int) -> (u8, u8)
    decreases y - y0,
{
    if y <= y0 {
        (255, 0)
    } else {
        let prev = roi_range(frame, y0, y - 1);
        let row = roi_row_range(frame, y - 1, (frame.width / 4) as int, (frame.width / 4 + frame.width / 2) as int);
        (
            if row.0 < prev.0 { row.0 } else { prev.0 },
            if row.1 > prev.1 { row.1 } else { prev.1 },
        )
    }
}

/// Lowest and highest channel-0 intensity present in the central region of
/// a frame, `(255, 0)` when none is present; the frame's contrast is
/// `(max - min) / (max + min)` when `max > min`.
pub fn roi_intensity_range(frame: &PalmImage) -> (r: (u8, u8))
    requires
        positions_fit(*frame),
    ensures
        r == roi_range(*frame, (frame.height / 4) as int, (frame.height / 4 + frame.height / 2) as int),
{
    let roi_x = frame.width / 4;
    let roi_y = frame.height / 4;
    let roi_w = frame.width / 2;
    let roi_h = frame.height / 2;
    let mut min_val: u8 = 255;
    let mut max_val: u8 = 0;
    let mut y = roi_y;
    while y < roi_y + roi_h
        invariant
            positions_fit(*frame),
            roi_x == frame.width / 4,
            roi_y == frame.height / 4,
            roi_w == frame.width / 2,
            roi_h == frame.height / 2,
            roi_y <= y <= roi_y + roi_h,
            (min_val, max_val) == roi_range(*frame, roi_y as int, y as int),
        decreases roi_y + roi_h - y,
    {
        let mut row_min: u8 = 255;
        let mut row_max: u8 = 0;
        let mut x = roi_x;
        while x < roi_x + roi_w
            invariant
                positions_fit(*frame),
                roi_x == frame.width / 4,
                roi_w == frame.width / 2,
                roi_x <= x <= roi_x + roi_w,
                (row_min, row_max) == roi_row_range(*frame, y as int, roi_x as int, x as int),
            decreases roi_x + roi_w - x,
        {
            proof { lemma_positions_fit(*frame, x as int, y as int, 0); }
            let got = frame.get_pixel(x, y, 0);
            if let Ok(pixel) = got {
                if pixel < row_min {
                    row_min = pixel;
                }
                if pixel > row_max {
                    row_max = pixel;
                }
            }
            x = x + 1;
        }
        if row_min < min_val {
            min_val = row_min;
        }
        if row_max > max_val {
            max_val = row_max;
        }
        y = y + 1;
    }
    (min_val, max_val)
}

/// Three frames with their capture timestamps (microseconds).
#[derive(Debug, Clone)]
pub struct MultiFrameCapture {
    /// Captured frames.
    pub frames: [PalmImage; 3],
    /// Frame timestamps in microseconds.
    pub timestamps: [u64; 3],
}

impl MultiFrameCapture {
    /// Creates a capture from frames and timestamps.
    pub fn new(frames: [PalmImage; 3], timestamps: [u64; 3]) -> (c: Self)
        ensures
            c.frames == frames,
            c.timestamps == timestamps,
    {
        MultiFrameCapture { frames, timestamps }
    }

    /// Total capture duration in whole milliseconds; the last timestamp must
    /// not precede the first.
    pub fn capture_duration_ms(&self) -> (d: u64)
        requires
            self.timestamps[0] <= self.timestamps[2],
        ensures
            d == (self.timestamps[2] - self.timestamps[0]) / 1000,
    {
        (self.timestamps[2] - self.timestamps[0]) / 1000
    }
}

/// Cold-environment thresholds only relax the defaults: whatever passes the
/// defaults passes them too.
pub proof fn lemma_cold_environment_is_looser(s: LivenessSignals)
    ensures
        liveness_passes(s, default_liveness_thresholds()) ==> liveness_passes(
            s,
            LivenessThresholds { pulse_amplitude_min: PULSE_AMPLITUDE_MIN / 2, ..default_liveness_thresholds() },
        ),
{
}

/// Signals pass thresholds exactly when the pulse frequency lies within
/// its range, the pulse amplitude and vein contrast variance reach their
/// minimums, and both inter-frame similarities lie within their range; so
/// falling short on any one of them fails the check.
pub proof fn lemma_liveness_thresholds_decide(s: LivenessSignals, t: LivenessThresholds)
    ensures
        liveness_passes(s, t) <==> {
            &&& t.pulse_frequency_min <= s.pulse_frequency
            &&& s.pulse_frequency <= t.pulse_frequency_max
            &&& t.pulse_amplitude_min <= s.pulse_amplitude
            &&& t.vein_contrast_variance_min <= s.vein_contrast_variance
            &&& t.inter_frame_similarity_min <= s.inter_frame_similarity[0]
            &&& s.inter_frame_similarity[0] <= t.inter_frame_similarity_max
            &&& t.inter_frame_similarity_min <= s.inter_frame_similarity[1]
            &&& s.inter_frame_similarity[1] <= t.inter_frame_similarity_max
        },
        s.vein_contrast_variance < t.vein_contrast_variance_min ==> !liveness_passes(s, t),
        s.pulse_amplitude < t.pulse_amplitude_min ==> !liveness_passes(s, t),
{
}

/// Raising any minimum or lowering any maximum never lets more signals
/// pass.
pub proof fn lemma_liveness_stricter_thresholds(s: LivenessSignals, t: LivenessThresholds, u: LivenessThresholds)
    requires
        u.pulse_frequency_min >= t.pulse_frequency_min,
        u.pulse_frequency_max <= t.pulse_frequency_max,
        u.pulse_amplitude_min >= t.pulse_amplitude_min,
        u.vein_contrast_variance_min >= t.vein_contrast_variance_min,
        u.inter_frame_similarity_min >= t.inter_frame_similarity_min,
        u.inter_frame_similarity_max <= t.inter_frame_similarity_max,
    ensures
        liveness_passes(s, u) ==> liveness_passes(s, t),
{
}

} // verus!
