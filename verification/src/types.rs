//! Shared value types.

use vstd::prelude::*;

verus! {

/// One biometric feature value in unsigned 16.16 fixed point
/// (`value / 65536` is the real number it stands for).
#[derive(Debug, Clone, Copy, PartialEq, Eq, Structural)]
pub struct BiometricFeature(pub u32);

impl Default for BiometricFeature {
    /// The zero feature.
    fn default() -> (f: Self)
        ensures
            f.0 == 0,
    {
        BiometricFeature(0)
    }
}

impl From<u32> for BiometricFeature {
    fn from(v: u32) -> (f: Self) {
        BiometricFeature(v)
    }
}

impl vstd::std_specs::convert::FromSpecImpl<u32> for BiometricFeature {
    open spec fn obeys_from_spec() -> bool {
        true
    }

    open spec fn from_spec(v: u32) -> Self {
        BiometricFeature(v)
    }
}

} // verus!
