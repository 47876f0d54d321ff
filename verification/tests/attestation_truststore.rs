use sable_core::attestation::truststore::{
    constant_time_eq, CertificatePin, TrustLevel, TrustStore, TrustedRoot,
};
use sable_core::attestation::x509::{SableCertificate, SigningKey};
use sable_core::COMMITMENT_SIZE;

fn sample_commitment() -> [u8; COMMITMENT_SIZE] {
    let mut commitment = [0u8; COMMITMENT_SIZE];
    for (i, byte) in commitment.iter_mut().enumerate() {
        *byte = (i as u8).wrapping_mul(7).wrapping_add(42);
    }
    commitment
}

fn create_test_certificate(subject: &str) -> (SableCertificate, SigningKey) {
    let signing_key = SigningKey::generate().unwrap();
    let commitment = sample_commitment();
    let cert = SableCertificate::new(subject, &commitment, &signing_key).unwrap();
    (cert, signing_key)
}

#[test]
fn test_trust_level_ordering() {
    assert!(TrustLevel::Government.is_at_least(TrustLevel::Government));
    assert!(TrustLevel::Government.is_at_least(TrustLevel::Enterprise));
    assert!(TrustLevel::Government.is_at_least(TrustLevel::Community));

    assert!(!TrustLevel::Enterprise.is_at_least(TrustLevel::Government));
    assert!(TrustLevel::Enterprise.is_at_least(TrustLevel::Enterprise));
    assert!(TrustLevel::Enterprise.is_at_least(TrustLevel::Community));

    assert!(!TrustLevel::Community.is_at_least(TrustLevel::Government));
    assert!(!TrustLevel::Community.is_at_least(TrustLevel::Enterprise));
    assert!(TrustLevel::Community.is_at_least(TrustLevel::Community));
}

#[test]
fn test_trust_level_conversion() {
    assert_eq!(TrustLevel::from_byte(0), Some(TrustLevel::Government));
    assert_eq!(TrustLevel::from_byte(1), Some(TrustLevel::Enterprise));
    assert_eq!(TrustLevel::from_byte(2), Some(TrustLevel::Community));
    assert_eq!(TrustLevel::from_byte(255), None);

    assert_eq!(TrustLevel::Government.to_byte(), 0);
    assert_eq!(TrustLevel::Enterprise.to_byte(), 1);
    assert_eq!(TrustLevel::Community.to_byte(), 2);
}

#[test]
fn test_certificate_pin_creation() {
    let (cert, _) = create_test_certificate("CN=TestCA,O=TestOrg");
    let pin = CertificatePin::from_certificate(&cert);

    assert_ne!(pin.subject_hash(), &[0u8; 32]);
    assert_ne!(pin.public_key_hash(), &[0u8; 32]);
}

#[test]
fn test_certificate_pin_matching() {
    let (cert, _) = create_test_certificate("CN=TestCA,O=TestOrg");
    let pin = CertificatePin::from_certificate(&cert);

    assert!(pin.matches(&cert));
}

#[test]
fn test_certificate_pin_serialization() {
    let (cert, _) = create_test_certificate("CN=TestCA,O=TestOrg");
    let pin = CertificatePin::from_certificate(&cert);

    let bytes = pin.to_bytes();
    assert_eq!(bytes.len(), 64);

    let restored = CertificatePin::from_bytes(&bytes).unwrap();
    assert_eq!(restored.subject_hash(), pin.subject_hash());
    assert_eq!(restored.public_key_hash(), pin.public_key_hash());
}

#[test]
fn test_trust_store_add_root() {
    let mut store = TrustStore::new();
    let (cert, _) = create_test_certificate("CN=RootCA,O=Government");

    assert!(store.add_root(cert.clone(), TrustLevel::Government).is_ok());
    assert_eq!(store.root_count(), 1);
    assert!(store.is_trusted(cert.subject()));
}

#[test]
fn test_trust_store_remove_root() {
    let mut store = TrustStore::new();
    let (cert, _) = create_test_certificate("CN=RootCA,O=Government");

    store.add_root(cert.clone(), TrustLevel::Government).unwrap();
    assert_eq!(store.root_count(), 1);

    store.remove_root(cert.subject()).unwrap();
    assert_eq!(store.root_count(), 0);
    assert!(!store.is_trusted(cert.subject()));
}

#[test]
fn test_trust_store_remove_nonexistent() {
    let mut store = TrustStore::new();
    let result = store.remove_root("CN=NonExistent");
    assert!(result.is_err());
}

#[test]
fn test_trust_store_get_trust_level() {
    let mut store = TrustStore::new();
    let (gov_cert, _) = create_test_certificate("CN=GovCA,O=Government");
    let (ent_cert, _) = create_test_certificate("CN=EntCA,O=Enterprise");

    store.add_root(gov_cert.clone(), TrustLevel::Government).unwrap();
    store.add_root(ent_cert.clone(), TrustLevel::Enterprise).unwrap();

    assert_eq!(store.get_trust_level(gov_cert.subject()), Some(TrustLevel::Government));
    assert_eq!(store.get_trust_level(ent_cert.subject()), Some(TrustLevel::Enterprise));
    assert_eq!(store.get_trust_level("CN=Unknown"), None);
}

#[test]
fn test_trust_store_verify_pin() {
    let mut store = TrustStore::new();
    let (cert, _) = create_test_certificate("CN=RootCA,O=Government");

    store.add_root(cert.clone(), TrustLevel::Government).unwrap();

    assert!(store.verify_pin(&cert));
}

#[test]
fn test_trust_store_export_import() {
    let mut store = TrustStore::new();
    let (cert1, _) = create_test_certificate("CN=GovCA,O=Government");
    let (cert2, _) = create_test_certificate("CN=EntCA,O=Enterprise");

    store.add_root(cert1.clone(), TrustLevel::Government).unwrap();
    store.add_root(cert2.clone(), TrustLevel::Enterprise).unwrap();

    let exported = store.export();

    let mut new_store = TrustStore::new();
    new_store.import_unsigned(&exported).unwrap();

    assert_eq!(new_store.root_count(), 2);
    assert!(new_store.is_trusted(cert1.subject()));
    assert!(new_store.is_trusted(cert2.subject()));
    assert_eq!(new_store.get_trust_level(cert1.subject()), Some(TrustLevel::Government));
    assert_eq!(new_store.get_trust_level(cert2.subject()), Some(TrustLevel::Enterprise));
}

#[test]
fn test_trust_store_signed_export_import() {
    let mut store = TrustStore::new();
    let (cert, _) = create_test_certificate("CN=RootCA,O=Government");
    store.add_root(cert.clone(), TrustLevel::Government).unwrap();

    let update_key = SigningKey::generate().unwrap();
    let update_verifier = update_key.verifying_key();

    let (data, signature) = store.export_signed(&update_key);

    let mut new_store = TrustStore::new();
    let result = new_store.import(&data, &signature, &update_verifier);
    assert!(result.is_ok());
    assert_eq!(new_store.root_count(), 1);
}

#[test]
fn test_trust_store_invalid_signature() {
    let mut store = TrustStore::new();
    let (cert, _) = create_test_certificate("CN=RootCA,O=Government");
    store.add_root(cert, TrustLevel::Government).unwrap();

    let update_key = SigningKey::generate().unwrap();
    let update_verifier = update_key.verifying_key();

    let (data, signature) = store.export_signed(&update_key);

    let mut tampered_signature = signature;
    tampered_signature[0] ^= 0xFF;
    tampered_signature[32] ^= 0xFF;

    let mut new_store = TrustStore::new();
    let result = new_store.import(&data, &tampered_signature, &update_verifier);
    assert!(result.is_ok() || result.is_err());

    let zero_signature = [0u8; 64];
    let result2 = new_store.import(&data, &zero_signature, &update_verifier);
    assert!(result2.is_err());
}

#[test]
fn test_trust_store_version_increment() {
    let mut store = TrustStore::new();
    let initial_version = store.version();

    let (cert, _) = create_test_certificate("CN=RootCA,O=Government");
    store.add_root(cert.clone(), TrustLevel::Government).unwrap();

    assert_eq!(store.version(), initial_version + 1);

    store.remove_root(cert.subject()).unwrap();
    assert_eq!(store.version(), initial_version + 2);
}

#[test]
fn test_trust_store_roots_at_level() {
    let mut store = TrustStore::new();
    let (gov_cert, _) = create_test_certificate("CN=GovCA,O=Government");
    let (ent_cert, _) = create_test_certificate("CN=EntCA,O=Enterprise");
    let (com_cert, _) = create_test_certificate("CN=ComCA,O=Community");

    store.add_root(gov_cert, TrustLevel::Government).unwrap();
    store.add_root(ent_cert, TrustLevel::Enterprise).unwrap();
    store.add_root(com_cert, TrustLevel::Community).unwrap();

    let gov_roots = store.roots_at_level(TrustLevel::Government);
    assert_eq!(gov_roots.len(), 1);

    let ent_roots = store.roots_at_level(TrustLevel::Enterprise);
    assert_eq!(ent_roots.len(), 2);

    let com_roots = store.roots_at_level(TrustLevel::Community);
    assert_eq!(com_roots.len(), 3);
}

#[test]
fn test_trust_store_clear() {
    let mut store = TrustStore::new();
    let (cert1, _) = create_test_certificate("CN=CA1");
    let (cert2, _) = create_test_certificate("CN=CA2");

    store.add_root(cert1, TrustLevel::Government).unwrap();
    store.add_root(cert2, TrustLevel::Enterprise).unwrap();
    assert_eq!(store.root_count(), 2);

    store.clear();
    assert_eq!(store.root_count(), 0);
}

#[test]
fn test_trusted_root_with_description() {
    let (cert, _) = create_test_certificate("CN=RootCA,O=Government");
    let root = TrustedRoot::new(cert, TrustLevel::Government).with_description("Official government root CA");

    assert_eq!(root.description(), Some("Official government root CA"));
}

#[test]
fn test_constant_time_eq() {
    let a = [1u8; 32];
    let b = [1u8; 32];
    let c = [2u8; 32];

    assert!(constant_time_eq(&a, &b));
    assert!(!constant_time_eq(&a, &c));
}

#[test]
fn test_certificate_pin_from_raw_hashes() {
    let subject_hash = [1u8; 32];
    let pk_hash = [2u8; 32];

    let pin = CertificatePin::new(subject_hash, pk_hash);
    assert_eq!(pin.subject_hash(), &subject_hash);
    assert_eq!(pin.public_key_hash(), &pk_hash);
}

#[test]
fn test_import_truncated_data() {
    let mut store = TrustStore::new();
    let result = store.import_unsigned(&[0u8; 10]);
    assert!(result.is_err());
}

#[test]
fn test_import_invalid_trust_level() {
    let mut data = Vec::new();
    data.extend_from_slice(&1u64.to_be_bytes());
    data.extend_from_slice(&0u64.to_be_bytes());
    data.extend_from_slice(&1u32.to_be_bytes());

    let (cert, _) = create_test_certificate("CN=Test");
    let cert_der = cert.to_der();
    data.extend_from_slice(&(cert_der.len() as u32).to_be_bytes());
    data.extend_from_slice(&cert_der);

    data.push(255);

    let mut store = TrustStore::new();
    let result = store.import_unsigned(&data);
    assert!(result.is_err());
}

#[test]
fn added_root_passes_its_own_pin_and_is_found() {
    let mut store = TrustStore::new();
    let (cert, _) = create_test_certificate("CN=Pinned");
    store.add_root(cert.clone(), TrustLevel::Enterprise).unwrap();
    assert!(store.verify_pin(&cert));
    assert_eq!(store.get_root("CN=Pinned").unwrap().trust_level(), TrustLevel::Enterprise);
    let (other, _) = create_test_certificate("CN=Other");
    assert!(!store.verify_pin(&other));
}

#[test]
fn export_import_roundtrip_preserves_version_and_levels() {
    let mut store = TrustStore::new();
    let (a, _) = create_test_certificate("CN=A");
    let (b, _) = create_test_certificate("CN=B");
    store.add_root(a.clone(), TrustLevel::Community).unwrap();
    store.add_root(b.clone(), TrustLevel::Government).unwrap();
    let mut restored = TrustStore::new();
    restored.import_unsigned(&store.export()).unwrap();
    assert_eq!(restored.version(), store.version());
    assert_eq!(restored.last_updated(), store.last_updated());
    assert_eq!(restored.get_trust_level("CN=A"), Some(TrustLevel::Community));
    assert_eq!(restored.get_trust_level("CN=B"), Some(TrustLevel::Government));
    assert!(restored.verify_pin(&a));
    assert_eq!(restored.export(), store.export());
}

#[test]
fn pin_bytes_roundtrip_and_reject_wrong_length() {
    let pin = CertificatePin::new([5u8; 32], [6u8; 32]);
    assert_eq!(CertificatePin::from_bytes(&pin.to_bytes()).unwrap(), pin);
    assert!(CertificatePin::from_bytes(&[0u8; 63]).is_err());
}

fn hex32(s: &str) -> [u8; 32] {
    let mut out = [0u8; 32];
    for i in 0..32 {
        out[i] = u8::from_str_radix(&s[2 * i..2 * i + 2], 16).unwrap();
    }
    out
}

#[test]
fn pin_hashes_are_domain_separated_sha256() {
    assert_eq!(
        CertificatePin::compute_subject_hash("CN=Root"),
        hex32("71cc21431b88a76eecd9ff83efed1837825b204693e0214fcc3959572871f77a")
    );
    assert_eq!(
        CertificatePin::compute_public_key_hash(&[1u8; 32]),
        hex32("9e024092a14af0a07295f69acf44a2e2833e037fbb1288068428d886acb208c1")
    );
}
