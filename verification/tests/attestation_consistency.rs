use sable_core::attestation::chain::{ChainValidator, Crl, OcspResponse, OcspStatus};
use sable_core::SableError;
use sable_core::attestation::truststore::{TrustLevel, TrustStore};
use sable_core::attestation::x509::{ProofType, SableCertificate, SableCertificateBuilder, SigningKey};

#[test]
fn later_current_revoked_response_is_found() {
    let cert = SableCertificate::new("CN=Test", &[0u8; 48], &SigningKey::from_bytes(&[1u8; 32])).unwrap();
    let serial = cert.serial_number().to_vec();
    let mut v = ChainValidator::new();
    v.add_ocsp_response(OcspResponse::new(serial.clone(), OcspStatus::Good, 0, 10));
    v.add_ocsp_response(OcspResponse::new(serial, OcspStatus::Revoked, 100, 3600));
    assert_eq!(v.check_ocsp_at(&cert, 200), Ok(true));
    assert_eq!(v.check_ocsp_at(&cert, 5), Ok(false));
}

#[test]
fn pin_of_issuer_does_not_accept_foreign_certificate() {
    let mut s = TrustStore::new();
    let root = SableCertificate::new("CN=SABLE-CA,O=Government", &[1u8; 48], &SigningKey::from_bytes(&[1u8; 32]))
        .unwrap();
    s.add_root(root.clone(), TrustLevel::Government).unwrap();
    let cert = SableCertificate::new("CN=Mallory", &[2u8; 48], &SigningKey::from_bytes(&[2u8; 32])).unwrap();
    assert!(!s.verify_pin(&cert));
    assert!(s.verify_pin(&root));
}

#[test]
fn signature_verifies_only_under_signer_key() {
    let sk = SigningKey::from_bytes(&[1u8; 32]);
    let other = SigningKey::from_bytes(&[2u8; 32]).verifying_key();
    let m = b"msg";
    let sig = sk.sign(m);
    assert!(sk.verifying_key().verify(m, &sig));
    assert!(!other.verify(m, &sig));
    assert!(!sk.verifying_key().verify(b"other", &sig));
}

#[test]
fn builder_carries_issuer_and_serial() {
    let k = SigningKey::from_bytes(&[7u8; 32]);
    let c = SableCertificateBuilder::new("CN=BuilderTest", [0u8; 48])
        .issuer("CN=CustomIssuer")
        .serial_number(vec![1, 2, 3])
        .proof_type(ProofType::Plonk)
        .validity(86400)
        .build(&k)
        .unwrap();
    assert_eq!(c.subject(), "CN=BuilderTest");
    assert_eq!(c.issuer(), "CN=CustomIssuer");
    assert_eq!(c.serial_number(), &[1u8, 2, 3][..]);
    assert_eq!(c.proof_type(), ProofType::Plonk);
    assert_eq!(c.not_after() - c.not_before(), 86400);
    assert_eq!(c.verify(&k.verifying_key()), Ok(true));
}

#[test]
fn import_refuses_record_under_foreign_subject() {
    let mut s = TrustStore::new();
    let cert = SableCertificate::new("CN=GovA", &[3u8; 48], &SigningKey::from_bytes(&[3u8; 32])).unwrap();
    s.add_root(cert, TrustLevel::Government).unwrap();
    let mut data = s.export();
    let needle = b"CN=GovA";
    let pos = data.windows(needle.len()).rposition(|w| w == needle).unwrap();
    data[pos + needle.len() - 1] = b'B';
    let mut t = TrustStore::new();
    let before = t.root_count();
    assert!(t.import_unsigned(&data).is_err());
    assert_eq!(t.root_count(), before);
    let mut u = TrustStore::new();
    assert!(u.import_unsigned(&s.export()).is_ok());
    assert_eq!(u.root_count(), 1);
}

#[test]
fn crl_with_missing_entries_names_the_truncated_entry() {
    let mut bytes = vec![0u8, 0];
    bytes.extend_from_slice(&[0u8; 16]);
    bytes.extend_from_slice(&[0xFF, 0xFF, 0xFF, 0xFF]);
    assert_eq!(
        Crl::from_bytes(&bytes).unwrap_err(),
        SableError::InvalidInput("CRL entry truncated".to_string())
    );
    assert_eq!(Crl::from_bytes(&[0u8; 5]).unwrap_err(), SableError::InvalidInput("CRL too short".to_string()));
}

#[test]
fn chain_refusals_name_subject_and_levels() {
    let mut s = TrustStore::new();
    let root = SableCertificate::new("CN=Comm", &[4u8; 48], &SigningKey::from_bytes(&[4u8; 32])).unwrap();
    let other = SableCertificate::new("CN=X", &[5u8; 48], &SigningKey::from_bytes(&[5u8; 32])).unwrap();
    s.add_root(root.clone(), TrustLevel::Community).unwrap();
    assert_eq!(
        s.validate_chain_at(&[other], TrustLevel::Community, root.not_before()).unwrap_err(),
        SableError::InvalidInput("Root certificate not trusted: CN=X".to_string())
    );
    assert_eq!(
        s.validate_chain_at(&[root.clone()], TrustLevel::Government, root.not_before()).unwrap_err(),
        SableError::InvalidInput("Root trust level Community does not meet minimum Government".to_string())
    );
    assert_eq!(
        s.validate_chain_at(&[], TrustLevel::Community, 0).unwrap_err(),
        SableError::InvalidInput("Empty certificate chain".to_string())
    );
    assert_eq!(s.validate_chain_at(&[root.clone()], TrustLevel::Community, root.not_before()), Ok(TrustLevel::Community));
}

#[test]
fn builder_at_fixed_time_uses_fresh_serial_and_refuses_overflow() {
    let k = SigningKey::from_bytes(&[7u8; 32]);
    let c = SableCertificateBuilder::new("CN=BuilderTest", [0u8; 48])
        .validity(100)
        .build_at(&k, 1_700_000_000, vec![9u8; 16])
        .unwrap();
    assert_eq!(c.not_before(), 1_700_000_000);
    assert_eq!(c.not_after(), 1_700_000_100);
    assert_eq!(c.serial_number(), &[9u8; 16][..]);
    assert_eq!(c.issuer(), "CN=SABLE-CA,O=Government");
    let kept = SableCertificateBuilder::new("CN=BuilderTest", [0u8; 48])
        .serial_number(vec![1, 2, 3])
        .build_at(&k, 5, vec![9u8; 16])
        .unwrap();
    assert_eq!(kept.serial_number(), &[1u8, 2, 3][..]);
    let overflow = SableCertificateBuilder::new("CN=BuilderTest", [0u8; 48])
        .validity(u64::MAX)
        .build_at(&k, 1, vec![9u8; 16]);
    assert_eq!(
        overflow.err(),
        Some(SableError::InvalidInput("Certificate validity period overflows".to_string()))
    );
}
