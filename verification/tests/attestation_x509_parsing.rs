use sable_core::attestation::validated_x509::{
    certificate_facts, certificate_policy, crl_facts, validate_chain, MAX_CERT,
};
use sable_core::SableError;

/// A self-signed version-1 Ed25519 certificate for www.example.com, valid
/// from 2021-07-27 12:37:14 to 2023-06-27 12:37:14 UTC.
const ED25519_CERT: [u8; 268] = [48,130,1,8,48,129,187,2,20,119,229,244,192,52,136,161,34,108,245,205,69,243,205,240,73,145,248,21,67,48,5,6,3,43,101,112,48,39,49,11,48,9,6,3,85,4,6,19,2,68,69,49,24,48,22,6,3,85,4,3,12,15,119,119,119,46,101,120,97,109,112,108,101,46,99,111,109,48,30,23,13,50,49,48,55,50,55,49,50,51,55,49,52,90,23,13,50,51,48,54,50,55,49,50,51,55,49,52,90,48,39,49,11,48,9,6,3,85,4,6,19,2,68,69,49,24,48,22,6,3,85,4,3,12,15,119,119,119,46,101,120,97,109,112,108,101,46,99,111,109,48,42,48,5,6,3,43,101,112,3,33,0,62,164,5,210,239,25,245,224,171,243,62,77,245,78,229,29,5,68,121,61,152,226,103,37,55,244,255,202,248,96,152,76,48,5,6,3,43,101,112,3,65,0,32,219,122,230,250,194,136,233,89,244,106,202,178,215,44,72,13,85,188,15,39,87,50,82,104,63,232,1,170,158,131,210,35,195,180,140,23,147,112,107,222,13,196,170,54,113,200,131,131,177,228,26,110,82,139,214,188,2,166,38,234,141,213,2];

/// A version-1 CRL issued by CN=snakeoil at the epoch, with no next update.
const MINIMAL_CRL: [u8; 359] = [48,130,1,99,48,77,48,13,6,9,42,134,72,134,247,13,1,1,11,5,0,48,19,49,17,48,15,6,3,85,4,3,12,8,115,110,97,107,101,111,105,108,24,15,49,57,55,48,48,49,48,49,48,48,48,48,48,48,90,48,22,48,20,2,1,42,24,15,49,57,55,48,48,49,48,49,48,48,48,48,48,48,90,48,13,6,9,42,134,72,134,247,13,1,1,11,5,0,3,130,1,1,0,25,243,211,116,225,143,146,132,182,186,114,118,150,214,42,70,2,1,88,196,4,3,228,119,188,96,53,3,43,99,219,215,21,75,49,74,117,140,158,11,109,152,50,131,18,225,28,4,194,17,163,28,24,115,245,225,126,140,118,111,143,17,231,127,97,79,47,141,227,203,110,197,112,68,246,14,53,31,37,80,174,5,176,251,247,236,178,34,90,19,194,59,37,240,215,190,81,27,144,200,180,142,127,41,28,155,11,17,70,29,66,179,45,59,172,185,149,21,215,64,116,161,115,169,18,54,248,23,11,74,67,181,224,23,233,227,223,50,98,172,1,109,20,189,127,186,77,46,69,76,71,10,43,14,190,207,47,139,239,214,10,85,159,202,203,111,47,122,238,128,105,137,185,86,139,193,100,251,60,183,127,253,159,205,196,106,211,148,254,124,30,235,34,227,50,88,247,108,23,51,163,2,9,37,165,38,63,246,22,106,21,192,205,104,68,30,197,202,68,247,204,50,111,70,153,94,131,32,157,39,86,88,167,170,100,85,241,84,199,19,182,7,178,58,78,20,63,125,75,89,7,37,131,23,213,173];

fn denial() -> SableError {
    SableError::Cryptographic("Certificate validation rejected".to_string())
}

#[test]
fn ed25519_certificate_facts_are_read() {
    let f = certificate_facts(&ED25519_CERT).unwrap();
    assert_eq!(f.der_len, 268);
    assert_eq!(f.trailing, 0);
    assert_eq!(f.key_algorithm, "1.3.101.112");
    assert!(!f.key_has_params);
    assert_eq!(f.key_unused_bits, 0);
    assert_eq!(f.key_len, 32);
    assert_eq!(f.not_before, 1_627_389_434);
    assert_eq!(f.not_after, 1_687_869_434);
    assert!(f.extension_oids.is_empty());
    assert_eq!(f.basic_constraints, Some(None));
    assert_eq!(f.key_usage, Some(None));
    assert_eq!(f.extended_key_usage, Some(None));
}

#[test]
fn trailing_bytes_are_counted() {
    let mut der = ED25519_CERT.to_vec();
    der.extend_from_slice(&[0, 0, 0]);
    assert_eq!(certificate_facts(&der).unwrap().trailing, 3);
}

#[test]
fn empty_oversized_or_malformed_certificates_have_no_facts() {
    assert!(certificate_facts(&[]).is_none());
    assert!(certificate_facts(&vec![0x30u8; MAX_CERT + 1]).is_none());
    assert!(certificate_facts(b"not a certificate").is_none());
}

#[test]
fn certificate_without_key_usage_fails_the_profile() {
    let inside = 1_650_000_000;
    assert_eq!(certificate_policy(&ED25519_CERT, false, inside), Err(denial()));
    assert_eq!(certificate_policy(&ED25519_CERT, true, inside), Err(denial()));
    assert_eq!(certificate_policy(b"not a certificate", false, inside), Err(denial()));
}

#[test]
fn crl_facts_are_read() {
    let c = crl_facts(&MINIMAL_CRL).unwrap();
    assert_eq!(c.der_len, 359);
    assert_eq!(c.trailing, 0);
    assert_eq!(c.last_update, 0);
    assert_eq!(c.next_update, None);
    assert_eq!(
        c.issuer,
        vec![48, 19, 49, 17, 48, 15, 6, 3, 85, 4, 3, 12, 8, 115, 110, 97, 107, 101, 111, 105, 108]
    );
    assert!(crl_facts(&[]).is_none());
    assert!(crl_facts(b"not a crl").is_none());
}

#[test]
fn bundle_outside_the_counts_or_profile_is_refused() {
    let cert = ED25519_CERT.to_vec();
    let crl = MINIMAL_CRL.to_vec();
    let now = 1_650_000_000;
    assert_eq!(validate_chain(&cert, &vec![], &vec![], &vec![crl.clone()], "www.example.com", now), Err(denial()));
    assert_eq!(validate_chain(&cert, &vec![], &vec![cert.clone()], &vec![], "www.example.com", now), Err(denial()));
    let five = vec![cert.clone(); 5];
    assert_eq!(validate_chain(&cert, &five, &vec![cert.clone()], &vec![crl.clone()], "www.example.com", now), Err(denial()));
    assert_eq!(validate_chain(&cert, &vec![], &vec![cert.clone()], &vec![crl], "www.example.com", now), Err(denial()));
}
