use sable_core::attestation::x509::{
    ProofType, SableCertificate, SableCertificateBuilder, SableExtension, SigningKey, VerifyingKey,
    OID_SABLE_COMMITMENT, OID_SABLE_ISSUED_AT, OID_SABLE_PROOF_TYPE, SABLE_OID_PREFIX,
};
use sable_core::COMMITMENT_SIZE;

fn sample_commitment() -> [u8; COMMITMENT_SIZE] {
    let mut commitment = [0u8; COMMITMENT_SIZE];
    for (i, byte) in commitment.iter_mut().enumerate() {
        *byte = (i as u8).wrapping_mul(7).wrapping_add(42);
    }
    commitment
}

#[test]
fn test_proof_type_conversion() {
    assert_eq!(ProofType::from_byte(0), ProofType::Groth16);
    assert_eq!(ProofType::from_byte(1), ProofType::Plonk);
    assert_eq!(ProofType::from_byte(2), ProofType::Bulletproofs);
    assert_eq!(ProofType::from_byte(255), ProofType::NoProof);
    assert_eq!(ProofType::from_byte(100), ProofType::NoProof);

    assert_eq!(ProofType::Groth16.to_byte(), 0);
    assert_eq!(ProofType::Plonk.to_byte(), 1);
    assert_eq!(ProofType::Bulletproofs.to_byte(), 2);
    assert_eq!(ProofType::NoProof.to_byte(), 255);
}

#[test]
fn test_signing_key_generation() {
    let key1 = SigningKey::generate().unwrap();
    let key2 = SigningKey::generate().unwrap();

    assert_ne!(key1.verifying_key().to_bytes(), key2.verifying_key().to_bytes());
}

#[test]
fn test_signing_and_verification() {
    let signing_key = SigningKey::generate().unwrap();
    let _verifying_key = signing_key.verifying_key();

    let message = b"Test message for SABLE certificate";
    let signature = signing_key.sign(message);

    assert_eq!(signature.len(), 64);
}

#[test]
fn test_sable_extension_serialization() {
    let commitment = sample_commitment();
    let ext = SableExtension::new(commitment, ProofType::Groth16, 1700000000);

    let der = ext.to_der();
    assert_eq!(der.len(), 58);

    let parsed = SableExtension::from_der(&der).unwrap();
    assert_eq!(parsed.commitment(), &commitment);
    assert_eq!(parsed.proof_type(), ProofType::Groth16);
    assert_eq!(parsed.issued_at(), 1700000000);
}

#[test]
fn test_sable_extension_invalid_version() {
    let mut der = vec![0x02];
    der.extend_from_slice(&[0u8; 57]);

    let result = SableExtension::from_der(&der);
    assert!(result.is_err());
}

#[test]
fn test_certificate_creation() {
    let commitment = sample_commitment();
    let issuer_key = SigningKey::generate().unwrap();

    let cert = SableCertificate::new("CN=TestUser,O=TestOrg", &commitment, &issuer_key).unwrap();

    assert_eq!(cert.subject(), "CN=TestUser,O=TestOrg");
    assert_eq!(cert.issuer(), "CN=SABLE-CA,O=Government");
    assert_eq!(cert.get_commitment(), commitment);
    assert_eq!(cert.proof_type(), ProofType::Groth16);
    assert!(cert.is_valid_now());
}

#[test]
fn test_certificate_serialization() {
    let commitment = sample_commitment();
    let issuer_key = SigningKey::generate().unwrap();

    let cert = SableCertificate::new("CN=TestUser,O=TestOrg", &commitment, &issuer_key).unwrap();

    let der = cert.to_der();
    let parsed = SableCertificate::from_der(&der).unwrap();

    assert_eq!(parsed.subject(), cert.subject());
    assert_eq!(parsed.issuer(), cert.issuer());
    assert_eq!(parsed.serial_number(), cert.serial_number());
    assert_eq!(parsed.not_before(), cert.not_before());
    assert_eq!(parsed.not_after(), cert.not_after());
    assert_eq!(parsed.get_commitment(), cert.get_commitment());
    assert_eq!(parsed.proof_type(), cert.proof_type());
}

#[test]
fn test_certificate_verification() {
    let commitment = sample_commitment();
    let issuer_key = SigningKey::generate().unwrap();
    let issuer_public = issuer_key.verifying_key();

    let cert = SableCertificate::new("CN=TestUser,O=TestOrg", &commitment, &issuer_key).unwrap();

    let result = cert.verify(&issuer_public);
    assert!(result.is_ok());
}

#[test]
fn test_certificate_validity_period() {
    let commitment = sample_commitment();
    let issuer_key = SigningKey::generate().unwrap();

    let cert = SableCertificate::new_with_options(
        "CN=TestUser,O=TestOrg",
        &commitment,
        &issuer_key,
        ProofType::Groth16,
        3600,
    )
    .unwrap();

    let now = std::time::SystemTime::now()
        .duration_since(std::time::UNIX_EPOCH)
        .unwrap()
        .as_secs();

    assert!(cert.is_valid_at(now));
    assert!(!cert.is_valid_at(now - 1000));
    assert!(!cert.is_valid_at(now + 7200));
}

#[test]
fn test_certificate_builder() {
    let commitment = sample_commitment();
    let issuer_key = SigningKey::generate().unwrap();

    let cert = SableCertificateBuilder::new("CN=BuilderTest", commitment)
        .issuer("CN=CustomIssuer")
        .proof_type(ProofType::Plonk)
        .validity(86400)
        .build(&issuer_key)
        .unwrap();

    assert_eq!(cert.subject(), "CN=BuilderTest");
    assert_eq!(cert.proof_type(), ProofType::Plonk);
}

#[test]
fn test_certificate_with_different_proof_types() {
    let commitment = sample_commitment();
    let issuer_key = SigningKey::generate().unwrap();

    for proof_type in [ProofType::Groth16, ProofType::Plonk, ProofType::Bulletproofs, ProofType::NoProof] {
        let cert = SableCertificate::new_with_options(
            "CN=TestUser",
            &commitment,
            &issuer_key,
            proof_type,
            3600,
        )
        .unwrap();

        assert_eq!(cert.proof_type(), proof_type);

        let der = cert.to_der();
        let parsed = SableCertificate::from_der(&der).unwrap();
        assert_eq!(parsed.proof_type(), proof_type);
    }
}

#[test]
fn test_oid_constants() {
    assert!(OID_SABLE_COMMITMENT.starts_with(SABLE_OID_PREFIX));
    assert!(OID_SABLE_PROOF_TYPE.starts_with(SABLE_OID_PREFIX));
    assert!(OID_SABLE_ISSUED_AT.starts_with(SABLE_OID_PREFIX));

    assert_ne!(OID_SABLE_COMMITMENT, OID_SABLE_PROOF_TYPE);
    assert_ne!(OID_SABLE_COMMITMENT, OID_SABLE_ISSUED_AT);
    assert_ne!(OID_SABLE_PROOF_TYPE, OID_SABLE_ISSUED_AT);
}

#[test]
fn test_der_parsing_errors() {
    let result = SableCertificate::from_der(&[0u8; 10]);
    assert!(result.is_err());

    let mut der = vec![2u8];
    der.extend_from_slice(&[0u8; 200]);
    let result = SableCertificate::from_der(&der);
    assert!(result.is_err());
}

#[test]
fn test_commitment_extraction() {
    let commitment = sample_commitment();
    let issuer_key = SigningKey::generate().unwrap();

    let cert = SableCertificate::new("CN=TestUser", &commitment, &issuer_key).unwrap();

    let extracted = cert.get_commitment();
    assert_eq!(extracted, commitment);

    assert_eq!(cert.sable_extension().commitment(), &commitment);
}

#[test]
fn test_verifying_key_serialization() {
    let signing_key = SigningKey::generate().unwrap();
    let verifying_key = signing_key.verifying_key();

    let bytes = verifying_key.to_bytes();
    let restored = VerifyingKey::from_bytes(&bytes);

    assert_eq!(restored, verifying_key);
}

#[test]
fn test_extension_too_short() {
    let result = SableExtension::from_der(&[0x01; 10]);
    assert!(result.is_err());
}

#[test]
fn issue_is_deterministic_in_time_and_serial() {
    let commitment = sample_commitment();
    let key = SigningKey::from_bytes(&[7u8; 32]);
    let a = SableCertificate::issue("CN=A", &commitment, &key, ProofType::Plonk, 100, 1_000, vec![1, 2, 3])
        .unwrap();
    let b = SableCertificate::issue("CN=A", &commitment, &key, ProofType::Plonk, 100, 1_000, vec![1, 2, 3])
        .unwrap();
    assert_eq!(a.to_der(), b.to_der());
    assert_eq!(a.not_before(), 1_000);
    assert_eq!(a.not_after(), 1_100);
    assert_eq!(a.serial_number(), &[1, 2, 3]);
    assert!(a.is_valid_at(1_000));
    assert!(a.is_valid_at(1_100));
    assert!(!a.is_valid_at(1_101));
}

#[test]
fn issue_refuses_overflowing_validity() {
    let key = SigningKey::from_bytes(&[7u8; 32]);
    let r = SableCertificate::issue("CN=A", &sample_commitment(), &key, ProofType::Groth16, u64::MAX, 10, vec![1]);
    assert!(r.is_err());
}

#[test]
fn degenerate_signatures_are_refused() {
    let key = SigningKey::from_bytes(&[9u8; 32]);
    let vk = key.verifying_key();
    assert!(!vk.verify(b"hello", &[0u8; 64]));
    assert!(!vk.verify(b"hello", &[7u8; 64]));
}

#[test]
fn certificate_roundtrips_through_der_exactly() {
    let key = SigningKey::from_bytes(&[3u8; 32]);
    let cert = SableCertificate::issue("CN=Round", &sample_commitment(), &key, ProofType::Bulletproofs, 50, 77, vec![9; 16])
        .unwrap();
    let parsed = SableCertificate::from_der(&cert.to_der()).unwrap();
    assert_eq!(parsed, cert);
    assert_eq!(parsed.to_der(), cert.to_der());
}

#[test]
fn signing_key_zeroize_wipes_secret() {
    let mut key = SigningKey::from_bytes(&[7u8; 32]);
    let zero_key = SigningKey::from_bytes(&[0u8; 32]);
    assert_ne!(key.verifying_key().to_bytes(), zero_key.verifying_key().to_bytes());
    key.zeroize();
    assert_eq!(key.verifying_key().to_bytes(), zero_key.verifying_key().to_bytes());
}
