//! Palm-image handling and liveness checks for biometric capture.

pub mod image;
pub mod fingerprint;
pub mod corneal;
pub mod photometric;
pub mod rolling_shutter;
pub mod liveness;
pub mod screen_flash;
pub mod palm;
pub mod feature_extraction;
pub mod preprocessing;

pub use image::{BiometricModality, PalmImage};
