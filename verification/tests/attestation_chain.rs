use sable_core::attestation::chain::{
    certificate_fingerprint, ChainBuilder, ChainValidator, Crl, CrlEntry, OcspResponse, OcspStatus,
    RevocationReason, ValidationResult,
};
use sable_core::attestation::x509::{ProofType, SableCertificate, SigningKey};
use sable_core::COMMITMENT_SIZE;

fn current_timestamp() -> u64 {
    std::time::SystemTime::now()
        .duration_since(std::time::UNIX_EPOCH)
        .map(|d| d.as_secs())
        .unwrap_or(0)
}

fn sample_commitment() -> [u8; COMMITMENT_SIZE] {
    let mut commitment = [0u8; COMMITMENT_SIZE];
    for (i, byte) in commitment.iter_mut().enumerate() {
        *byte = (i as u8).wrapping_mul(7).wrapping_add(42);
    }
    commitment
}

fn different_commitment() -> [u8; COMMITMENT_SIZE] {
    let mut commitment = [0u8; COMMITMENT_SIZE];
    for (i, byte) in commitment.iter_mut().enumerate() {
        *byte = (i as u8).wrapping_mul(13).wrapping_add(17);
    }
    commitment
}

#[test]
fn test_validation_result_is_valid() {
    assert!(ValidationResult::Valid.is_valid());
    assert!(!ValidationResult::Expired.is_valid());
    assert!(!ValidationResult::NotYetValid.is_valid());
    assert!(!ValidationResult::InvalidSignature.is_valid());
    assert!(!ValidationResult::RevokedOcsp.is_valid());
    assert!(!ValidationResult::RevokedCrl.is_valid());
    assert!(!ValidationResult::UnknownIssuer.is_valid());
    assert!(!ValidationResult::ChainTooLong.is_valid());
    assert!(!ValidationResult::EmptyChain.is_valid());
    assert!(!ValidationResult::UntrustedRoot.is_valid());
}

#[test]
fn test_validation_result_descriptions() {
    assert!(!ValidationResult::Valid.description().is_empty());
    assert!(!ValidationResult::Expired.description().is_empty());
    assert!(!ValidationResult::NotYetValid.description().is_empty());
    assert!(!ValidationResult::InvalidSignature.description().is_empty());
    assert!(!ValidationResult::RevokedOcsp.description().is_empty());
    assert!(!ValidationResult::RevokedCrl.description().is_empty());
    assert!(!ValidationResult::UnknownIssuer.description().is_empty());
    assert!(!ValidationResult::ChainTooLong.description().is_empty());
    assert!(!ValidationResult::EmptyChain.description().is_empty());
    assert!(!ValidationResult::UntrustedRoot.description().is_empty());
}

#[test]
fn test_ocsp_response_creation() {
    let serial = vec![1, 2, 3, 4];
    let now = current_timestamp();
    let response = OcspResponse::new(serial.clone(), OcspStatus::Good, now, 3600);

    assert_eq!(response.serial_number, serial);
    assert_eq!(response.status, OcspStatus::Good);
    assert_eq!(response.produced_at, now);
    assert_eq!(response.next_update, now + 3600);
}

#[test]
fn test_ocsp_response_validity() {
    let now = current_timestamp();
    let response = OcspResponse::new(vec![1, 2, 3], OcspStatus::Good, now, 3600);

    assert!(response.is_valid_at(now));
    assert!(response.is_valid_at(now + 1800));
    assert!(!response.is_valid_at(now - 1));
    assert!(!response.is_valid_at(now + 3601));
}

#[test]
fn test_revocation_reason_from_byte() {
    assert_eq!(RevocationReason::from_byte(0), Some(RevocationReason::Unspecified));
    assert_eq!(RevocationReason::from_byte(1), Some(RevocationReason::KeyCompromise));
    assert_eq!(RevocationReason::from_byte(2), Some(RevocationReason::CaCompromise));
    assert_eq!(RevocationReason::from_byte(3), Some(RevocationReason::AffiliationChanged));
    assert_eq!(RevocationReason::from_byte(4), Some(RevocationReason::Superseded));
    assert_eq!(RevocationReason::from_byte(5), Some(RevocationReason::CessationOfOperation));
    assert_eq!(RevocationReason::from_byte(6), Some(RevocationReason::CertificateHold));
    assert_eq!(RevocationReason::from_byte(8), Some(RevocationReason::RemoveFromCrl));
    assert_eq!(RevocationReason::from_byte(9), Some(RevocationReason::PrivilegeWithdrawn));
    assert_eq!(RevocationReason::from_byte(10), Some(RevocationReason::AaCompromise));
    assert_eq!(RevocationReason::from_byte(7), None);
    assert_eq!(RevocationReason::from_byte(255), None);
}

#[test]
fn test_crl_creation() {
    let now = current_timestamp();
    let crl = Crl::new("CN=Test CA", now, now + 86400);

    assert_eq!(crl.issuer, "CN=Test CA");
    assert_eq!(crl.this_update, now);
    assert_eq!(crl.next_update, now + 86400);
    assert!(crl.entries.is_empty());
}

#[test]
fn test_crl_add_entry() {
    let now = current_timestamp();
    let mut crl = Crl::new("CN=Test CA", now, now + 86400);

    let entry = CrlEntry {
        serial_number: vec![1, 2, 3, 4],
        revocation_date: now - 3600,
        reason: Some(RevocationReason::KeyCompromise),
    };
    crl.add_entry(entry);

    assert_eq!(crl.entries.len(), 1);
    assert!(crl.is_revoked(&[1, 2, 3, 4]));
    assert!(!crl.is_revoked(&[5, 6, 7, 8]));
}

#[test]
fn test_crl_get_entry() {
    let now = current_timestamp();
    let mut crl = Crl::new("CN=Test CA", now, now + 86400);

    let entry = CrlEntry {
        serial_number: vec![1, 2, 3, 4],
        revocation_date: now - 3600,
        reason: Some(RevocationReason::Superseded),
    };
    crl.add_entry(entry);

    let found = crl.get_entry(&[1, 2, 3, 4]);
    assert!(found.is_some());
    assert_eq!(found.unwrap().reason, Some(RevocationReason::Superseded));

    assert!(crl.get_entry(&[5, 6, 7, 8]).is_none());
}

#[test]
fn test_crl_validity() {
    let now = current_timestamp();
    let crl = Crl::new("CN=Test CA", now, now + 86400);

    assert!(crl.is_valid_at(now));
    assert!(crl.is_valid_at(now + 43200));
    assert!(!crl.is_valid_at(now - 1));
    assert!(!crl.is_valid_at(now + 86401));
}

#[test]
fn test_crl_serialization() {
    let now = current_timestamp();
    let mut crl = Crl::new("CN=Test CA", now, now + 86400);

    crl.add_entry(CrlEntry {
        serial_number: vec![1, 2, 3, 4],
        revocation_date: now - 3600,
        reason: Some(RevocationReason::KeyCompromise),
    });

    crl.add_entry(CrlEntry {
        serial_number: vec![5, 6, 7, 8, 9],
        revocation_date: now - 7200,
        reason: None,
    });

    let bytes = crl.to_bytes();
    let parsed = Crl::from_bytes(&bytes).unwrap();

    assert_eq!(parsed.issuer, crl.issuer);
    assert_eq!(parsed.this_update, crl.this_update);
    assert_eq!(parsed.next_update, crl.next_update);
    assert_eq!(parsed.entries.len(), 2);
    assert!(parsed.is_revoked(&[1, 2, 3, 4]));
    assert!(parsed.is_revoked(&[5, 6, 7, 8, 9]));
}

#[test]
fn test_crl_invalid_bytes() {
    assert!(Crl::from_bytes(&[0u8; 10]).is_err());
}

#[test]
fn test_chain_validator_new() {
    let validator = ChainValidator::new();
    assert_eq!(validator.trusted_root_count(), 0);
}

#[test]
fn test_chain_validator_with_settings() {
    let validator = ChainValidator::with_settings(10, false);
    assert_eq!(validator.max_chain_length(), 10);
    assert!(!validator.revocation_checking());
}

#[test]
fn test_chain_validator_add_trusted_root() {
    let mut validator = ChainValidator::new();
    let commitment = sample_commitment();
    let signing_key = SigningKey::generate().unwrap();
    let root = SableCertificate::new("CN=Root CA", &commitment, &signing_key).unwrap();

    validator.add_trusted_root(root);
    assert_eq!(validator.trusted_root_count(), 1);

    validator.clear_trusted_roots();
    assert_eq!(validator.trusted_root_count(), 0);
}

#[test]
fn test_chain_validator_empty_chain() {
    let validator = ChainValidator::new();
    let result = validator.validate_chain(&[]);
    assert_eq!(result, ValidationResult::EmptyChain);
}

#[test]
fn test_chain_validator_chain_too_long() {
    let mut validator = ChainValidator::with_settings(2, false);
    let commitment = sample_commitment();
    let signing_key = SigningKey::generate().unwrap();

    let cert1 = SableCertificate::new("CN=Cert1", &commitment, &signing_key).unwrap();
    let cert2 = SableCertificate::new("CN=Cert2", &commitment, &signing_key).unwrap();
    let cert3 = SableCertificate::new("CN=Cert3", &commitment, &signing_key).unwrap();

    validator.add_trusted_root(cert3.clone());

    let result = validator.validate_chain(&[cert1, cert2, cert3]);
    assert_eq!(result, ValidationResult::ChainTooLong);
}

#[test]
fn test_chain_validator_untrusted_root() {
    let validator = ChainValidator::new();
    let commitment = sample_commitment();
    let signing_key = SigningKey::generate().unwrap();

    let cert = SableCertificate::new("CN=Cert", &commitment, &signing_key).unwrap();

    let result = validator.validate_chain(&[cert]);
    assert_eq!(result, ValidationResult::UntrustedRoot);
}

#[test]
fn test_chain_validator_valid_single_cert() {
    let mut validator = ChainValidator::new();
    let commitment = sample_commitment();
    let signing_key = SigningKey::generate().unwrap();

    let cert = SableCertificate::new("CN=Self-Signed", &commitment, &signing_key).unwrap();

    validator.add_trusted_root(cert.clone());

    let result = validator.validate_chain(&[cert]);
    assert_eq!(result, ValidationResult::Valid);
}

#[test]
fn test_chain_validator_expired_certificate() {
    let mut validator = ChainValidator::new();
    let commitment = sample_commitment();
    let signing_key = SigningKey::generate().unwrap();

    let cert = SableCertificate::new_with_options(
        "CN=Short-Lived",
        &commitment,
        &signing_key,
        ProofType::Groth16,
        1,
    )
    .unwrap();

    validator.add_trusted_root(cert.clone());

    let future = current_timestamp() + 10000;
    let result = validator.validate_chain_at(&[cert], future);
    assert_eq!(result, ValidationResult::Expired);
}

#[test]
fn test_chain_validator_ocsp_revoked() {
    let mut validator = ChainValidator::new();
    let commitment = sample_commitment();
    let signing_key = SigningKey::generate().unwrap();

    let cert = SableCertificate::new("CN=Revoked", &commitment, &signing_key).unwrap();
    validator.add_trusted_root(cert.clone());

    let now = current_timestamp();
    let ocsp_response =
        OcspResponse::new(cert.serial_number().to_vec(), OcspStatus::Revoked, now, 3600);
    validator.add_ocsp_response(ocsp_response);

    let result = validator.validate_chain(&[cert]);
    assert_eq!(result, ValidationResult::RevokedOcsp);
}

#[test]
fn test_chain_validator_crl_revoked() {
    let mut validator = ChainValidator::new();
    let commitment = sample_commitment();
    let signing_key = SigningKey::generate().unwrap();

    let cert = SableCertificate::new("CN=Revoked", &commitment, &signing_key).unwrap();
    validator.add_trusted_root(cert.clone());

    let now = current_timestamp();
    let mut crl = Crl::new("CN=SABLE-CA,O=Government", now, now + 86400);
    crl.add_entry(CrlEntry {
        serial_number: cert.serial_number().to_vec(),
        revocation_date: now - 3600,
        reason: Some(RevocationReason::KeyCompromise),
    });
    validator.add_crl(crl);

    let result = validator.validate_chain(&[cert]);
    assert_eq!(result, ValidationResult::RevokedCrl);
}

#[test]
fn test_chain_validator_revocation_disabled() {
    let mut validator = ChainValidator::with_settings(5, false);
    let commitment = sample_commitment();
    let signing_key = SigningKey::generate().unwrap();

    let cert = SableCertificate::new("CN=Cert", &commitment, &signing_key).unwrap();
    validator.add_trusted_root(cert.clone());

    let now = current_timestamp();
    let ocsp_response =
        OcspResponse::new(cert.serial_number().to_vec(), OcspStatus::Revoked, now, 3600);
    validator.add_ocsp_response(ocsp_response);

    let result = validator.validate_chain(&[cert]);
    assert_eq!(result, ValidationResult::Valid);
}

#[test]
fn test_check_ocsp() {
    let mut validator = ChainValidator::new();
    let commitment = sample_commitment();
    let signing_key = SigningKey::generate().unwrap();

    let cert = SableCertificate::new("CN=Test", &commitment, &signing_key).unwrap();

    assert!(!validator.check_ocsp(&cert).unwrap());

    let now = current_timestamp();
    validator.add_ocsp_response(OcspResponse::new(
        cert.serial_number().to_vec(),
        OcspStatus::Revoked,
        now,
        3600,
    ));

    assert!(validator.check_ocsp(&cert).unwrap());
}

#[test]
fn test_check_crl() {
    let validator = ChainValidator::new();
    let commitment = sample_commitment();
    let signing_key = SigningKey::generate().unwrap();

    let cert = SableCertificate::new("CN=Test", &commitment, &signing_key).unwrap();

    let now = current_timestamp();
    let crl = Crl::new("CN=Test CA", now, now + 86400);
    let crl_bytes = crl.to_bytes();

    assert!(!validator.check_crl(&cert, &crl_bytes).unwrap());

    let mut crl_with_cert = Crl::new("CN=Test CA", now, now + 86400);
    crl_with_cert.add_entry(CrlEntry {
        serial_number: cert.serial_number().to_vec(),
        revocation_date: now,
        reason: None,
    });
    let crl_bytes_with_cert = crl_with_cert.to_bytes();

    assert!(validator.check_crl(&cert, &crl_bytes_with_cert).unwrap());
}

#[test]
fn test_chain_validator_settings() {
    let mut validator = ChainValidator::new();

    validator.set_max_chain_length(10);
    assert_eq!(validator.max_chain_length(), 10);

    validator.set_revocation_checking(false);
    assert!(!validator.revocation_checking());

    validator.set_revocation_checking(true);
    assert!(validator.revocation_checking());
}

#[test]
fn test_clear_caches() {
    let mut validator = ChainValidator::new();

    let now = current_timestamp();
    validator.add_ocsp_response(OcspResponse::new(vec![1, 2, 3], OcspStatus::Good, now, 3600));
    validator.add_crl(Crl::new("CN=Test CA", now, now + 86400));

    assert!(validator.ocsp_cache_len() != 0);
    assert!(validator.crl_cache_len() != 0);

    validator.clear_ocsp_cache();
    assert!(validator.ocsp_cache_len() == 0);

    validator.clear_crl_cache();
    assert!(validator.crl_cache_len() == 0);
}

#[test]
fn test_chain_builder_creation() {
    let builder = ChainBuilder::new("CN=Test Root CA").unwrap();
    assert_eq!(builder.issuer_name(), "CN=Test Root CA");
}

#[test]
fn test_chain_builder_root_certificate() {
    let builder = ChainBuilder::new("CN=Test Root CA").unwrap();
    let commitment = sample_commitment();

    let root = builder.root_certificate(&commitment).unwrap();
    assert_eq!(root.subject(), "CN=Test Root CA");
}

#[test]
fn test_chain_builder_issue_certificate() {
    let builder = ChainBuilder::new("CN=Test Root CA").unwrap();
    let commitment = sample_commitment();

    let cert = builder.issue_certificate("CN=End Entity", &commitment, 3600).unwrap();
    assert_eq!(cert.subject(), "CN=End Entity");
}

#[test]
fn test_chain_builder_with_key() {
    let signing_key = SigningKey::generate().unwrap();
    let builder = ChainBuilder::with_key(signing_key, "CN=Custom CA");

    let commitment = sample_commitment();
    let cert = builder.issue_certificate("CN=Test", &commitment, 3600).unwrap();
    assert!(cert.subject().contains("Test"));
}

#[test]
fn test_certificate_fingerprint() {
    let commitment = sample_commitment();
    let signing_key = SigningKey::generate().unwrap();

    let cert = SableCertificate::new("CN=Test", &commitment, &signing_key).unwrap();
    let fingerprint = certificate_fingerprint(&cert);

    assert_eq!(fingerprint.len(), 32);

    let fingerprint2 = certificate_fingerprint(&cert);
    assert_eq!(fingerprint, fingerprint2);
}

#[test]
fn test_different_certs_different_fingerprints() {
    let signing_key = SigningKey::generate().unwrap();

    let cert1 = SableCertificate::new("CN=Cert1", &sample_commitment(), &signing_key).unwrap();
    let cert2 = SableCertificate::new("CN=Cert2", &different_commitment(), &signing_key).unwrap();

    let fp1 = certificate_fingerprint(&cert1);
    let fp2 = certificate_fingerprint(&cert2);

    assert_ne!(fp1, fp2);
}

#[test]
fn test_full_chain_validation_workflow() {
    let mut validator = ChainValidator::new();
    let commitment = sample_commitment();

    let root_builder = ChainBuilder::new("CN=Government Root CA,O=Government").unwrap();
    let root_cert = root_builder.root_certificate(&commitment).unwrap();

    validator.add_trusted_root(root_cert.clone());

    let end_entity = root_builder
        .issue_certificate("CN=User,O=Government", &commitment, 365 * 24 * 60 * 60)
        .unwrap();

    let result = validator.validate_chain(&[end_entity]);

    assert!(!result.is_valid() || result == ValidationResult::Valid);
}

#[test]
fn test_ocsp_status_variants() {
    assert_eq!(OcspStatus::Good, OcspStatus::Good);
    assert_eq!(OcspStatus::Revoked, OcspStatus::Revoked);
    assert_eq!(OcspStatus::Unknown, OcspStatus::Unknown);
    assert_ne!(OcspStatus::Good, OcspStatus::Revoked);
}
