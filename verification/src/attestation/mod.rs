//! Certificates binding a biometric commitment, their validation against
//! trusted roots with revocation checking, and trust-store management.

pub mod x509;
pub mod chain;
pub mod truststore;
pub mod validated_x509;
pub mod peer_binding;
