//! SABLE core: certificate attestation and biometric liveness primitives.

pub mod error;
pub mod codec;
pub mod platform;
pub mod attestation;
pub mod biometric;
pub mod types;

pub use error::{Result, SableError};

use vstd::prelude::*;

verus! {

/// Size in bytes of a compressed commitment point.
pub const COMMITMENT_SIZE: usize = 48;

} // verus!
