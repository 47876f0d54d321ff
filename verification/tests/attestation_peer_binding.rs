use sable_core::attestation::peer_binding::{check_binding, lowered_expiry, BindingChallenge, BindingPolicy, VerifiedPeer};
use sable_core::SableError;
use std::time::{Duration, Instant};

const NOW: u64 = 1_789_430_400;

fn policy() -> BindingPolicy {
    BindingPolicy {
        expected_name: "peer.allowed.test".to_string(),
        registered_template: [1; 32],
        audience: [2; 32],
        challenge: [3; 32],
        session: [4; 16],
        peer_role: 1,
        issued_at: NOW,
        expires_at: NOW + 30,
    }
}

fn denial() -> SableError {
    SableError::Cryptographic("Certificate peer binding rejected".to_string())
}

fn noise() -> [u8; 32] {
    x25519_dalek::x25519([9; 32], x25519_dalek::X25519_BASEPOINT_BYTES)
}

#[test]
fn binding_policy_accepts_lifetime_containing_now() {
    let p = policy();
    assert_eq!(p.validate(NOW), Ok(()));
    assert_eq!(p.validate(NOW + 29), Ok(()));
    let mut one = policy();
    one.expires_at = NOW + 1;
    assert_eq!(one.validate(NOW), Ok(()));
    let mut long_name = policy();
    long_name.expected_name = "a".repeat(253);
    assert_eq!(long_name.validate(NOW), Ok(()));
}

#[test]
fn binding_policy_expiry_future_and_excessive_lifetime_fail_closed() {
    let p = policy();
    for now in [NOW - 1, NOW + 30, u64::MAX] {
        assert_eq!(p.validate(now), Err(denial()));
    }
    for expires in [NOW, NOW - 1, NOW + 31] {
        let mut q = policy();
        q.expires_at = expires;
        assert_eq!(q.validate(NOW), Err(denial()));
    }
    let mut role = policy();
    role.peer_role = 2;
    assert_eq!(role.validate(NOW), Err(denial()));
    let mut empty = policy();
    empty.expected_name = String::new();
    assert_eq!(empty.validate(NOW), Err(denial()));
    let mut long_name = policy();
    long_name.expected_name = "a".repeat(254);
    assert_eq!(long_name.validate(NOW), Err(denial()));
    assert_eq!(
        denial().to_string(),
        "Cryptographic error: Certificate peer binding rejected"
    );
}

#[test]
fn binding_message_lays_out_every_field() {
    let p = policy();
    let digest = [7u8; 32];
    let key = [8u8; 32];
    let m = p.message(&digest, &key);
    let domain = b"sable/certificate-noise-binding/1\0";
    assert_eq!(m.len(), 34 + 2 + 17 + 32 + 32 * 3 + 16 + 1 + 8 + 8 + 32);
    assert_eq!(&m[..34], &domain[..]);
    assert_eq!(&m[34..36], &[0u8, 17]);
    assert_eq!(&m[36..53], b"peer.allowed.test");
    assert_eq!(&m[53..85], &digest);
    assert_eq!(&m[85..117], &[1u8; 32]);
    assert_eq!(&m[117..149], &[2u8; 32]);
    assert_eq!(&m[149..181], &[3u8; 32]);
    assert_eq!(&m[181..197], &[4u8; 16]);
    assert_eq!(m[197], 1);
    assert_eq!(&m[198..206], &NOW.to_be_bytes());
    assert_eq!(&m[206..214], &(NOW + 30).to_be_bytes());
    assert_eq!(&m[214..], &key);
}

#[test]
fn every_verifier_owned_binding_field_changes_the_message() {
    let base = policy().message(&[7; 32], &[8; 32]);
    for field in 0..8 {
        let mut p = policy();
        match field {
            0 => p.registered_template[0] ^= 1,
            1 => p.audience[0] ^= 1,
            2 => p.challenge[0] ^= 1,
            3 => p.session[0] ^= 1,
            4 => p.peer_role ^= 1,
            5 => p.issued_at += 1,
            6 => p.expires_at -= 1,
            _ => p.expected_name = "wrong.allowed.test".to_string(),
        }
        assert_ne!(p.message(&[7; 32], &[8; 32]), base, "field {field}");
    }
    assert_ne!(policy().message(&[6; 32], &[8; 32]), base);
    assert_ne!(policy().message(&[7; 32], &[9; 32]), base);
}

#[test]
fn binding_cannot_extend_certificate_or_crl_validity() {
    let now = NOW as i64;
    for (cert, crl, expected) in [(Some(2), None, 2), (None, Some(3), 3), (Some(5), Some(4), 4)] {
        let certs = vec![Some(cert.map(|s| now + s).unwrap_or(now + 86_400)), Some(now + 86_400)];
        let crls = vec![Some(crl.map(|s| now + s).unwrap_or(now + 86_400))];
        assert_eq!(lowered_expiry(NOW + 30, &certs, &crls), Some(NOW + expected));
    }
    assert_eq!(lowered_expiry(NOW + 30, &vec![], &vec![]), Some(NOW + 30));
    assert_eq!(lowered_expiry(NOW + 30, &vec![None], &vec![]), None);
    assert_eq!(lowered_expiry(NOW + 30, &vec![], &vec![None]), None);
    assert_eq!(lowered_expiry(NOW + 30, &vec![Some(-1)], &vec![]), None);
}

#[test]
fn checked_binding_cannot_be_used_for_another_session_role_or_after_expiry() {
    let deadline = Instant::now() + Duration::from_secs(3600);
    let peer = || VerifiedPeer {
        noise_key: [5; 32],
        certificate_digest: [6; 32],
        session: [4; 16],
        role: 1,
        expires_at: NOW + 2,
        deadline,
    };
    assert_eq!(peer().consume_for([4; 16], 1, NOW + 1), Ok(([5; 32], [6; 32], deadline)));
    assert_eq!(peer().consume_at([4; 16], 1, NOW + 1, false), Ok(([5; 32], [6; 32], deadline)));
    assert_eq!(peer().consume_at([4; 16], 1, NOW + 1, true), Err(denial()));
    let mut lapsed = peer();
    lapsed.deadline = Instant::now();
    assert_eq!(lapsed.consume_for([4; 16], 1, NOW + 1), Err(denial()));
    let mut other = [4u8; 16];
    other[0] ^= 1;
    assert_eq!(peer().consume_for(other, 1, NOW), Err(denial()));
    assert_eq!(peer().consume_for([4; 16], 0, NOW), Err(denial()));
    assert_eq!(peer().consume_for([4; 16], 1, NOW + 2), Err(denial()));
}

fn chain_denial() -> SableError {
    SableError::Cryptographic("Certificate validation rejected".to_string())
}

fn verify(challenge: &mut BindingChallenge, noise_key: [u8; 32], sig: &[u8], now: u64) -> Option<SableError> {
    let bundle = vec![b"not a certificate".to_vec()];
    challenge.verify(b"leaf", &vec![], &bundle, &bundle, noise_key, sig, now).err()
}

#[test]
fn invalid_signature_consumes_challenge_and_cannot_retry() {
    for bad in [vec![], vec![0u8; 63], vec![0u8; 65]] {
        let mut challenge = BindingChallenge(Some(policy()));
        assert_eq!(verify(&mut challenge, noise(), &bad, NOW), Some(denial()));
        assert!(challenge.0.is_none());
        assert_eq!(verify(&mut challenge, noise(), &[0u8; 64], NOW), Some(denial()));
    }
}

#[test]
fn unvalidated_bundle_is_refused_after_peer_input_checks() {
    let mut challenge = BindingChallenge(Some(policy()));
    assert_eq!(verify(&mut challenge, noise(), &[0u8; 64], NOW), Some(chain_denial()));
    let mut expired = BindingChallenge(Some(policy()));
    assert_eq!(verify(&mut expired, noise(), &[0u8; 64], NOW + 30), Some(denial()));
}

#[test]
fn chain_refusal_is_passed_on_by_the_decision() {
    let refusal = chain_denial();
    let r = check_binding(&policy(), b"leaf", noise(), &[0u8; 64], NOW, Err(refusal.clone()), &vec![], &vec![]);
    assert_eq!(r.err(), Some(refusal));
}

#[test]
fn low_order_noise_key_is_refused_before_the_chain() {
    let mut challenge = BindingChallenge(Some(policy()));
    assert_eq!(verify(&mut challenge, [0u8; 32], &[0u8; 64], NOW), Some(denial()));
}

#[test]
fn signature_not_made_by_the_leaf_key_is_refused() {
    let certs = vec![Some(NOW as i64 + 86_400)];
    let crls = vec![Some(NOW as i64 + 86_400)];
    let r = check_binding(&policy(), b"not a certificate", noise(), &[0u8; 64], NOW, Ok(()), &certs, &crls);
    assert_eq!(r.err(), Some(denial()));
}
