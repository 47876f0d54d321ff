//! Palm-biometrics processor settings and the geometric checks on a palm
//! image.

use vstd::prelude::*;
use crate::biometric::image::PalmImage;
use crate::error::{crypto_error, Result, SableError};

verus! {

/// Palm biometrics processor settings.
#[derive(Debug, Clone, Copy, PartialEq, Eq, Structural)]
pub struct PalmProcessor {
    /// Assess image quality before processing (slower, more accurate).
    pub high_quality_mode: bool,
    /// Require both vein and print modalities.
    pub require_multimodal: bool,
}

impl Default for PalmProcessor {
    /// High-quality mode, single modality accepted.
    fn default() -> (p: Self)
        ensures
            p.high_quality_mode,
            !p.require_multimodal,
    {
        PalmProcessor { high_quality_mode: true, require_multimodal: false }
    }
}

/// Whether a palm image has acceptable geometry: both sides at least 200
/// pixels and the width-to-height ratio within `[0.5, 2.0]`.
pub open spec fn palm_geometry_ok(image: PalmImage) -> bool {
    &&& image.width >= 200 && image.height >= 200
    &&& 2 * image.width >= image.height
    &&& image.width <= 2 * image.height
}

impl PalmProcessor {
    /// A processor with the default settings.
    pub fn new() -> (p: Self)
        ensures
            p.high_quality_mode,
            !p.require_multimodal,
    {
        PalmProcessor::default()
    }

    /// A processor with the given settings.
    pub fn with_settings(high_quality: bool, multimodal: bool) -> (p: Self)
        ensures
            p.high_quality_mode == high_quality,
            p.require_multimodal == multimodal,
    {
        PalmProcessor { high_quality_mode: high_quality, require_multimodal: multimodal }
    }

    /// Checks the geometry of a palm image: too small (under 200 x 200) or
    /// too elongated (aspect ratio outside `[0.5, 2.0]`) is refused.
    pub fn validate_image_geometry(&self, image: &PalmImage) -> (r: Result<()>)
        ensures
            r is Ok <==> palm_geometry_ok(*image),
            r matches Err(e) ==> e is CryptoError,
    {
        if image.width < 200 || image.height < 200 {
            return Err(crypto_error("Image too small for palm biometrics (minimum 200x200)"));
        }
        let w = image.width as u64;
        let h = image.height as u64;
        if 2 * w < h || w > 2 * h {
            return Err(crypto_error("Unusual aspect ratio - may not be a palm image"));
        }
        Ok(())
    }
}

/// Builder for palm processor settings.
pub struct PalmProcessorBuilder {
    high_quality: bool,
    multimodal: bool,
}

impl PalmProcessorBuilder {
    /// The settings the builder holds: high-quality mode, then multimodal.
    pub closed spec fn settings(&self) -> (bool, bool) {
        (self.high_quality, self.multimodal)
    }

    /// A builder with the default settings.
    pub fn new() -> (b: Self)
        ensures
            b.settings() == (true, false),
    {
        PalmProcessorBuilder { high_quality: true, multimodal: false }
    }

    /// Sets high-quality mode.
    pub fn high_quality(self, enabled: bool) -> (b: Self)
        ensures
            b.settings() == (enabled, self.settings().1),
    {
        PalmProcessorBuilder { high_quality: enabled, multimodal: self.multimodal }
    }

    /// Sets whether both modalities are required.
    pub fn multimodal(self, required: bool) -> (b: Self)
        ensures
            b.settings() == (self.settings().0, required),
    {
        PalmProcessorBuilder { high_quality: self.high_quality, multimodal: required }
    }

    /// The processor with the held settings.
    pub fn build(self) -> (p: PalmProcessor)
        ensures
            p.high_quality_mode == self.settings().0,
            p.require_multimodal == self.settings().1,
    {
        PalmProcessor::with_settings(self.high_quality, self.multimodal)
    }
}

impl Default for PalmProcessorBuilder {
    /// A builder with the default settings.
    fn default() -> (b: Self)
        ensures
            b.settings() == (true, false),
    {
        PalmProcessorBuilder::new()
    }
}

} // verus!
