//! Screen-flash reflectance liveness: thresholds on the reflectance signals
//! of a baseline/flash image pair, and the checks on the pair.
//!
//! Real faces reflect a flash unevenly (nose, cheeks, forehead); flat attack
//! surfaces reflect it uniformly. All values are 16-bit fixed point
//! (`value / 65536`) and private; callers learn only pass or fail.

use vstd::prelude::*;
use crate::biometric::image::PalmImage;
use crate::error::{invalid_input, Result, SableError};

verus! {

/// Minimum reflectance variance (0.05).
pub const REFLECTANCE_VARIANCE_MIN: u16 = 3277;

/// Minimum reflectance gradient (0.03).
pub const REFLECTANCE_GRADIENT_MIN: u16 = 1966;

/// Minimum highlight softness (0.15).
pub const HIGHLIGHT_SOFTNESS_MIN: u16 = 9830;

/// Maximum channel consistency (0.95); higher values indicate a flat or
/// screen surface.
pub const CHANNEL_CONSISTENCY_MAX: u16 = 62259;

/// Screen-flash thresholds, each 16-bit fixed point.
#[derive(Debug, Clone, Copy, PartialEq, Eq, Structural)]
pub struct ScreenFlashThresholds {
    /// Minimum reflectance variance.
    pub reflectance_variance_min: u16,
    /// Minimum reflectance gradient score.
    pub reflectance_gradient_min: u16,
    /// Minimum highlight softness.
    pub highlight_softness_min: u16,
    /// Maximum channel consistency.
    pub channel_consistency_max: u16,
}

/// The default thresholds.
pub open spec fn default_flash_thresholds() -> ScreenFlashThresholds {
    ScreenFlashThresholds {
        reflectance_variance_min: REFLECTANCE_VARIANCE_MIN,
        reflectance_gradient_min: REFLECTANCE_GRADIENT_MIN,
        highlight_softness_min: HIGHLIGHT_SOFTNESS_MIN,
        channel_consistency_max: CHANNEL_CONSISTENCY_MAX,
    }
}

/// Whether a threshold configuration is sane: every threshold is nonzero.
pub open spec fn flash_thresholds_ok(t: ScreenFlashThresholds) -> bool {
    t.reflectance_variance_min != 0 && t.reflectance_gradient_min != 0 && t.highlight_softness_min
        != 0 && t.channel_consistency_max != 0
}

impl Default for ScreenFlashThresholds {
    /// The research-validated default thresholds.
    fn default() -> (t: Self)
        ensures
            t == default_flash_thresholds(),
    {
        ScreenFlashThresholds {
            reflectance_variance_min: REFLECTANCE_VARIANCE_MIN,
            reflectance_gradient_min: REFLECTANCE_GRADIENT_MIN,
            highlight_softness_min: HIGHLIGHT_SOFTNESS_MIN,
            channel_consistency_max: CHANNEL_CONSISTENCY_MAX,
        }
    }
}

impl ScreenFlashThresholds {
    /// Tighter thresholds for high-security environments.
    pub fn high_security() -> (t: Self)
        ensures
            t == (ScreenFlashThresholds {
                reflectance_variance_min: 4915,
                reflectance_gradient_min: 2949,
                highlight_softness_min: 13107,
                channel_consistency_max: 58982,
            }),
    {
        ScreenFlashThresholds {
            reflectance_variance_min: 4915,
            reflectance_gradient_min: 2949,
            highlight_softness_min: 13107,
            channel_consistency_max: 58982,
        }
    }

    /// Checks that the configuration is sane.
    pub fn validate(&self) -> (r: Result<()>)
        ensures
            r is Ok <==> flash_thresholds_ok(*self),
            r matches Err(e) ==> e is InvalidInput,
    {
        if self.reflectance_variance_min == 0 || self.reflectance_gradient_min == 0
            || self.highlight_softness_min == 0 {
            return Err(invalid_input("Invalid threshold configuration"));
        }
        if self.channel_consistency_max == 0 {
            return Err(invalid_input("Invalid threshold configuration"));
        }
        Ok(())
    }
}

/// Reflectance signals of a baseline/flash pair.
#[derive(Clone)]
pub struct ScreenFlashSignals {
    /// Spatial variance of the reflectance ratios.
    pub reflectance_variance: u16,
    /// Smoothness of spatial reflectance transitions.
    pub reflectance_gradient: u16,
    /// Falloff profile of bright spots.
    pub highlight_softness: u16,
    /// Correlation between the R, G and B reflectance maps.
    pub channel_consistency: u16,
}

/// Whether signals pass thresholds: variance, gradient and softness at
/// least their minimums, and channel consistency at most its maximum.
pub open spec fn flash_passes(s: ScreenFlashSignals, t: ScreenFlashThresholds) -> bool {
    &&& s.reflectance_variance >= t.reflectance_variance_min
    &&& s.reflectance_gradient >= t.reflectance_gradient_min
    &&& s.highlight_softness >= t.highlight_softness_min
    &&& s.channel_consistency <= t.channel_consistency_max
}

/// Circuit witness form of the signals: each value widened to `u64`.
#[derive(Clone)]
pub struct ScreenFlashWitness {
    /// Reflectance variance.
    pub reflectance_variance: u64,
    /// Reflectance gradient.
    pub reflectance_gradient: u64,
    /// Highlight softness.
    pub highlight_softness: u64,
    /// Channel consistency.
    pub channel_consistency: u64,
}

impl ScreenFlashSignals {
    /// Whether all signals pass the thresholds; which one failed is not
    /// revealed.
    pub fn passes_thresholds(&self, thresholds: &ScreenFlashThresholds) -> (b: bool)
        ensures
            b == flash_passes(*self, *thresholds),
    {
        let variance_ok = self.reflectance_variance >= thresholds.reflectance_variance_min;
        let gradient_ok = self.reflectance_gradient >= thresholds.reflectance_gradient_min;
        let softness_ok = self.highlight_softness >= thresholds.highlight_softness_min;
        let consistency_ok = self.channel_consistency <= thresholds.channel_consistency_max;
        variance_ok && gradient_ok && softness_ok && consistency_ok
    }

    /// The circuit witness: the same values widened to `u64`.
    pub fn to_circuit_witness(&self) -> (w: ScreenFlashWitness)
        ensures
            w.reflectance_variance == self.reflectance_variance,
            w.reflectance_gradient == self.reflectance_gradient,
            w.highlight_softness == self.highlight_softness,
            w.channel_consistency == self.channel_consistency,
    {
        ScreenFlashWitness {
            reflectance_variance: self.reflectance_variance as u64,
            reflectance_gradient: self.reflectance_gradient as u64,
            highlight_softness: self.highlight_softness as u64,
            channel_consistency: self.channel_consistency as u64,
        }
    }

    /// Clears every signal value.
    pub fn zeroize(&mut self)
        ensures
            final(self).reflectance_variance == 0,
            final(self).reflectance_gradient == 0,
            final(self).highlight_softness == 0,
            final(self).channel_consistency == 0,
    {
        self.reflectance_variance = 0;
        self.reflectance_gradient = 0;
        self.highlight_softness = 0;
        self.channel_consistency = 0;
    }
}

/// Whether a baseline/flash pair is accepted: same dimensions and channel
/// count, RGB, at least 64 x 64.
pub open spec fn flash_pair_accepted(baseline: PalmImage, flash: PalmImage) -> bool {
    &&& baseline.width == flash.width
    &&& baseline.height == flash.height
    &&& baseline.channels == flash.channels
    &&& baseline.channels == 3
    &&& baseline.width >= 64 && baseline.height >= 64
}

/// Checks reflectance signals of baseline/flash pairs.
pub struct ScreenFlashExtractor {
    thresholds: ScreenFlashThresholds,
}

impl ScreenFlashExtractor {
    /// The thresholds in use.
    pub closed spec fn thresholds_of(&self) -> ScreenFlashThresholds {
        self.thresholds
    }

    /// An extractor with the default thresholds.
    pub fn new() -> (e: Self)
        ensures
            e.thresholds_of() == default_flash_thresholds(),
    {
        ScreenFlashExtractor { thresholds: ScreenFlashThresholds::default() }
    }

    /// An extractor with custom thresholds; insane ones are refused.
    pub fn with_thresholds(thresholds: ScreenFlashThresholds) -> (r: Result<Self>)
        ensures
            r is Ok <==> flash_thresholds_ok(thresholds),
            r matches Ok(e) ==> e.thresholds_of() == thresholds,
            r matches Err(e) ==> e is InvalidInput,
    {
        let checked = thresholds.validate();
        match checked {
            Ok(()) => Ok(ScreenFlashExtractor { thresholds }),
            Err(e) => Err(e),
        }
    }

    /// The thresholds in use.
    pub fn thresholds(&self) -> (t: ScreenFlashThresholds)
        ensures
            t == self.thresholds_of(),
    {
        self.thresholds
    }

    /// Whether signals pass this extractor's thresholds (pass or fail only).
    pub fn validate_signals(&self, signals: &ScreenFlashSignals) -> (b: bool)
        ensures
            b == flash_passes(*signals, self.thresholds_of()),
    {
        signals.passes_thresholds(&self.thresholds)
    }

    /// Checks a baseline/flash pair before any signal is computed.
    pub fn validate_inputs(&self, baseline: &PalmImage, flash: &PalmImage) -> (r: Result<()>)
        ensures
            r is Ok <==> flash_pair_accepted(*baseline, *flash),
            r matches Err(e) ==> e is InvalidInput,
    {
        if baseline.width != flash.width || baseline.height != flash.height || baseline.channels
            != flash.channels {
            return Err(invalid_input("Image dimension mismatch"));
        }
        if baseline.channels != 3 {
            return Err(invalid_input("RGB images required"));
        }
        if baseline.width < 64 || baseline.height < 64 {
            return Err(invalid_input("Insufficient image resolution"));
        }
        Ok(())
    }
}

impl Default for ScreenFlashExtractor {
    /// An extractor with the default thresholds.
    fn default() -> (e: Self)
        ensures
            e.thresholds_of() == default_flash_thresholds(),
    {
        ScreenFlashExtractor::new()
    }
}

/// The high-security thresholds are sane and tighter than the defaults on
/// every signal, so whatever passes them passes the defaults.
pub proof fn lemma_high_security_is_stricter(s: ScreenFlashSignals)
    ensures
        flash_passes(
            s,
            ScreenFlashThresholds {
                reflectance_variance_min: 4915,
                reflectance_gradient_min: 2949,
                highlight_softness_min: 13107,
                channel_consistency_max: 58982,
            },
        ) ==> flash_passes(s, default_flash_thresholds()),
{
}

/// Signals pass thresholds exactly when reflectance variance, reflectance
/// gradient and highlight softness each reach their minimum and channel
/// consistency stays at most its maximum; so falling short on any one of
/// them fails the check.
pub proof fn lemma_flash_thresholds_decide(s: ScreenFlashSignals, t: ScreenFlashThresholds)
    ensures
        flash_passes(s, t) <==> {
            &&& t.reflectance_variance_min <= s.reflectance_variance
            &&& t.reflectance_gradient_min <= s.reflectance_gradient
            &&& t.highlight_softness_min <= s.highlight_softness
            &&& s.channel_consistency <= t.channel_consistency_max
        },
        s.highlight_softness < t.highlight_softness_min ==> !flash_passes(s, t),
        s.channel_consistency > t.channel_consistency_max ==> !flash_passes(s, t),
{
}

/// Raising any minimum or lowering the consistency maximum never lets more
/// signals pass.
pub proof fn lemma_flash_stricter_thresholds(s: ScreenFlashSignals, t: ScreenFlashThresholds, u: ScreenFlashThresholds)
    requires
        u.reflectance_variance_min >= t.reflectance_variance_min,
        u.reflectance_gradient_min >= t.reflectance_gradient_min,
        u.highlight_softness_min >= t.highlight_softness_min,
        u.channel_consistency_max <= t.channel_consistency_max,
    ensures
        flash_passes(s, u) ==> flash_passes(s, t),
{
}

} // verus!
