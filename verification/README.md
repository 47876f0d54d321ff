# sable_core

Certificate attestation and biometric liveness primitives for SABLE, with
their behaviour stated in contracts and proved by Verus.

## Layout

- `src/` — the verified library.
  - `attestation/x509.rs` — SABLE certificates and their commitment
    extension: byte encodings, issuing, signing and signature checks.
  - `attestation/chain.rs` — chain validation, CRLs and OCSP responses.
  - `attestation/truststore.rs` — trusted roots, pins, export and import.
  - `attestation/validated_x509.rs` — the strict Ed25519 X.509
    client-certificate profile: DER parsing of certificates and CRLs into
    facts, the profile's decisions on them, and path validation of a
    bounded bundle.
  - `attestation/peer_binding.rs` — single-use challenges binding a
    certificate's key to a Noise static key.
  - `biometric/` — palm images, fixed-point liveness thresholds (NIR and
    screen flash), corneal and photometric checks, rolling-shutter temporal
    codes, colour fingerprints, and the integer image operations of feature
    extraction and preprocessing (morphology, thinning, binarisation,
    minutiae, median filter).
  - `platform.rs` — the trusted wrappers around SHA-256, HKDF, the system
    random source, the wall and monotonic clocks, UTF-8 decoding and memory
    wiping.
- `tests/` — tests of the library on concrete values.
- `app/` — the floating-point measurements (feature vectors, fusion,
  quality, reflectance and pulse signals, preprocessing filters),
  constant-time float comparisons, and serde copies of the certificate and
  trust-store types.
