use sable_core::attestation::validated_x509::{
    bundle_counts_ok, certificate_policy_facts, validate_chain_facts, CrlFacts, X509Facts,
};
use sable_core::SableError;

fn leaf_facts() -> X509Facts {
    X509Facts {
        der_len: 300,
        trailing: 0,
        key_algorithm: "1.3.101.112".to_string(),
        key_has_params: false,
        key_unused_bits: 0,
        key_len: 32,
        not_before: 100,
        not_after: 200,
        extension_oids: vec!["2.5.29.15".to_string(), "2.5.29.37".to_string()],
        basic_constraints: Some(None),
        key_usage: Some(Some(1)),
        extended_key_usage: Some(Some((true, false))),
    }
}

fn ca_facts() -> X509Facts {
    X509Facts {
        basic_constraints: Some(Some(true)),
        key_usage: Some(Some((1 << 5) | (1 << 6))),
        extended_key_usage: Some(None),
        ..leaf_facts()
    }
}

fn crl(issuer: u8) -> CrlFacts {
    CrlFacts { der_len: 100, trailing: 0, last_update: 50, next_update: Some(300), issuer: vec![issuer] }
}

fn denial() -> SableError {
    SableError::Cryptographic("Certificate validation rejected".to_string())
}

#[test]
fn leaf_and_ca_profiles_accept_good_facts() {
    assert_eq!(certificate_policy_facts(&leaf_facts(), false, 150), Ok(()));
    assert_eq!(certificate_policy_facts(&ca_facts(), true, 150), Ok(()));
    assert_eq!(certificate_policy_facts(&leaf_facts(), true, 150), Err(denial()));
    assert_eq!(certificate_policy_facts(&ca_facts(), false, 150), Err(denial()));
}

#[test]
fn profile_refuses_each_defect() {
    let now = 150;
    let cases = vec![
        X509Facts { der_len: 0, ..leaf_facts() },
        X509Facts { der_len: 16385, ..leaf_facts() },
        X509Facts { key_algorithm: "1.2.840.10045.2.1".to_string(), ..leaf_facts() },
        X509Facts { key_has_params: true, ..leaf_facts() },
        X509Facts { key_unused_bits: 1, ..leaf_facts() },
        X509Facts { key_len: 31, ..leaf_facts() },
        X509Facts { trailing: 1, ..leaf_facts() },
        X509Facts { not_before: 151, ..leaf_facts() },
        X509Facts { not_after: 150, ..leaf_facts() },
        X509Facts { extension_oids: vec!["2.5.29.15".to_string(), "2.5.29.15".to_string()], ..leaf_facts() },
        X509Facts { basic_constraints: None, ..leaf_facts() },
        X509Facts { key_usage: Some(None), ..leaf_facts() },
        X509Facts { key_usage: Some(Some(1 | (1 << 5))), ..leaf_facts() },
        X509Facts { extended_key_usage: Some(None), ..leaf_facts() },
        X509Facts { extended_key_usage: Some(Some((true, true))), ..leaf_facts() },
        X509Facts { extended_key_usage: Some(Some((false, false))), ..leaf_facts() },
    ];
    for f in cases {
        assert_eq!(certificate_policy_facts(&f, false, now), Err(denial()));
    }
}

#[test]
fn bundle_decision() {
    let ok = validate_chain_facts(
        &Some(leaf_facts()),
        &vec![Some(ca_facts())],
        &vec![Some(ca_facts())],
        &vec![Some(crl(1)), Some(crl(2))],
        150,
        true,
    );
    assert_eq!(ok, Ok(()));
    let no_path = validate_chain_facts(&Some(leaf_facts()), &vec![], &vec![Some(ca_facts())], &vec![Some(crl(1))], 150, false);
    assert_eq!(no_path, Err(denial()));
    let ambiguous = validate_chain_facts(
        &Some(leaf_facts()),
        &vec![],
        &vec![Some(ca_facts())],
        &vec![Some(crl(1)), Some(crl(1))],
        150,
        true,
    );
    assert_eq!(ambiguous, Err(denial()));
    let stale = CrlFacts { next_update: Some(150), ..crl(1) };
    assert_eq!(
        validate_chain_facts(&Some(leaf_facts()), &vec![], &vec![Some(ca_facts())], &vec![Some(stale)], 150, true),
        Err(denial())
    );
    assert_eq!(
        validate_chain_facts(&Some(leaf_facts()), &vec![], &vec![], &vec![Some(crl(1))], 150, true),
        Err(denial())
    );
    assert_eq!(
        validate_chain_facts(&None, &vec![], &vec![Some(ca_facts())], &vec![Some(crl(1))], 150, true),
        Err(denial())
    );
}

#[test]
fn bundle_counts() {
    assert!(bundle_counts_ok(1, 0, 1));
    assert!(bundle_counts_ok(16, 4, 16));
    assert!(!bundle_counts_ok(0, 0, 1));
    assert!(!bundle_counts_ok(1, 5, 1));
    assert!(!bundle_counts_ok(1, 0, 17));
}
