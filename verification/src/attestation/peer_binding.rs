//! Binding of a validated client certificate's key to a Noise static key.
//! Every policy field comes from trusted registration and challenge state;
//! the peer contributes only a Noise public key, a certificate bundle and a
//! signature. A challenge is single-use: it is consumed by the first
//! attempt, whether that attempt succeeds or not.

use vstd::prelude::*;
use vstd::string::StringExecFns;
use crate::attestation::x509::utf8;
use crate::codec::{be16, be64, bytes_eq, lemma_be64_roundtrip, push_bytes, push_u16, push_u64};
use crate::error::{cryptographic, Result, SableError};
use crate::attestation::validated_x509::{
    bounded_certificate_facts, bounded_crl_facts, bundle_checks_ok, byte_strings, path_accepted, certificate_facts, crl_facts,
    is_denial, validate_chain,
};
use crate::platform::{instant_at_or_after, instant_plus_secs, monotonic_now, sha256, spec_sha256};
use std::time::Instant;

verus! {

/// The refusal every failed binding reports.
pub open spec fn is_binding_denial(e: SableError) -> bool {
    e matches SableError::Cryptographic(m) && m@ == "Certificate peer binding rejected"@
}

/// The refusal of a binding.
fn denied() -> (e: SableError)
    ensures
        is_binding_denial(e),
{
    cryptographic("Certificate peer binding rejected")
}

/// Domain separator that starts every binding message.
pub open spec fn binding_domain() -> Seq<u8> {
    utf8("sable/certificate-noise-binding/1\0"@)
}

/// What a peer must prove possession for: the verifier-owned fields of one
/// challenge.
#[derive(Clone)]
pub struct BindingPolicy {
    /// DNS name the certificate must be valid for.
    pub expected_name: String,
    /// Digest of the registered biometric template.
    pub registered_template: [u8; 32],
    /// Audience the binding is meant for.
    pub audience: [u8; 32],
    /// Fresh challenge bytes.
    pub challenge: [u8; 32],
    /// Session the binding may be used in.
    pub session: [u8; 16],
    /// Role of the peer: 0 or 1.
    pub peer_role: u8,
    /// Issue time, seconds since the epoch.
    pub issued_at: u64,
    /// Expiry, seconds since the epoch.
    pub expires_at: u64,
}

/// Whether a policy may be used at `now`: a lifetime of 1 to 30 seconds
/// that contains `now`, a known role, and a DNS name of 1 to 253 bytes.
pub open spec fn policy_valid(p: BindingPolicy, now: u64) -> bool {
    &&& p.issued_at <= p.expires_at
    &&& 1 <= p.expires_at - p.issued_at <= 30
    &&& p.issued_at <= now < p.expires_at
    &&& p.peer_role <= 1
    &&& 1 <= utf8(p.expected_name@).len() <= 253
}

/// The message a peer signs: the domain, the length-prefixed DNS name, the
/// leaf digest, the fixed-width policy fields in order, and the Noise key.
pub open spec fn binding_message(p: BindingPolicy, leaf_digest: Seq<u8>, noise_key: Seq<u8>) -> Seq<u8> {
    binding_name_part(p) + binding_fields(p, leaf_digest, noise_key)
}

/// The start of a binding message: the domain and the length-prefixed DNS
/// name.
pub open spec fn binding_name_part(p: BindingPolicy) -> Seq<u8> {
    binding_domain() + be16((utf8(p.expected_name@).len() % 65536) as u16) + utf8(p.expected_name@)
}

/// The fixed-width rest of a binding message.
pub open spec fn binding_fields(p: BindingPolicy, leaf_digest: Seq<u8>, noise_key: Seq<u8>) -> Seq<u8> {
    leaf_digest + p.registered_template@ + p.audience@ + p.challenge@ + p.session@
        + seq![p.peer_role] + be64(p.issued_at) + be64(p.expires_at) + noise_key
}

/// No two bindings sign the same bytes: a binding message determines the
/// DNS name, every other policy field, the leaf digest and the Noise key.
pub proof fn lemma_binding_message_injective(
    p: BindingPolicy,
    q: BindingPolicy,
    d1: Seq<u8>,
    d2: Seq<u8>,
    k1: Seq<u8>,
    k2: Seq<u8>,
)
    requires
        d1.len() == 32,
        d2.len() == 32,
        k1.len() == 32,
        k2.len() == 32,
        binding_message(p, d1, k1) == binding_message(q, d2, k2),
    ensures
        p.expected_name@ == q.expected_name@,
        p.registered_template@ == q.registered_template@,
        p.audience@ == q.audience@,
        p.challenge@ == q.challenge@,
        p.session@ == q.session@,
        p.peer_role == q.peer_role,
        p.issued_at == q.issued_at,
        p.expires_at == q.expires_at,
        d1 == d2,
        k1 == k2,
{
    let m = binding_message(p, d1, k1);
    let fp = binding_fields(p, d1, k1);
    let fq = binding_fields(q, d2, k2);
    let np = binding_name_part(p);
    let nq = binding_name_part(q);
    assert(fp.len() == 193);
    assert(fq.len() == 193);
    assert(m == np + fp);
    assert(m == binding_message(q, d2, k2));
    assert(m == nq + fq);
    assert((np + fp).len() == np.len() + 193);
    assert((nq + fq).len() == nq.len() + 193);
    assert(np.len() == nq.len());
    assert(np =~= m.subrange(0, np.len() as int));
    assert(nq =~= m.subrange(0, nq.len() as int));
    assert(fp =~= m.subrange(np.len() as int, m.len() as int));
    assert(fq =~= m.subrange(nq.len() as int, m.len() as int));
    let dl = binding_domain().len() + 2;
    assert(utf8(p.expected_name@) =~= np.subrange(dl as int, np.len() as int));
    assert(utf8(q.expected_name@) =~= nq.subrange(dl as int, nq.len() as int));
    vstd::utf8::encode_utf8_decode_utf8(p.expected_name@);
    vstd::utf8::encode_utf8_decode_utf8(q.expected_name@);
    assert(d1 =~= fp.subrange(0, 32));
    assert(d2 =~= fq.subrange(0, 32));
    assert(p.registered_template@ =~= fp.subrange(32, 64));
    assert(q.registered_template@ =~= fq.subrange(32, 64));
    assert(p.audience@ =~= fp.subrange(64, 96));
    assert(q.audience@ =~= fq.subrange(64, 96));
    assert(p.challenge@ =~= fp.subrange(96, 128));
    assert(q.challenge@ =~= fq.subrange(96, 128));
    assert(p.session@ =~= fp.subrange(128, 144));
    assert(q.session@ =~= fq.subrange(128, 144));
    assert(fp[144] == p.peer_role);
    assert(fq[144] == q.peer_role);
    assert(be64(p.issued_at) =~= fp.subrange(145, 153));
    assert(be64(q.issued_at) =~= fq.subrange(145, 153));
    assert(be64(p.expires_at) =~= fp.subrange(153, 161));
    assert(be64(q.expires_at) =~= fq.subrange(153, 161));
    assert(k1 =~= fp.subrange(161, 193));
    assert(k2 =~= fq.subrange(161, 193));
    lemma_be64_roundtrip(p.issued_at);
    lemma_be64_roundtrip(q.issued_at);
    lemma_be64_roundtrip(p.expires_at);
    lemma_be64_roundtrip(q.expires_at);
}

impl BindingPolicy {
    /// Checks that the policy may be used at `now`.
    pub fn validate(&self, now: u64) -> (r: Result<()>)
        ensures
            r is Ok <==> policy_valid(*self, now),
            r matches Err(e) ==> is_binding_denial(e),
    {
        if self.expires_at < self.issued_at {
            return Err(denied());
        }
        let lifetime = self.expires_at - self.issued_at;
        let name_len = self.expected_name.as_str().as_bytes().len();
        if lifetime < 1 || lifetime > 30 || now < self.issued_at || now >= self.expires_at
            || self.peer_role > 1 || name_len == 0 || name_len > 253
        {
            return Err(denied());
        }
        Ok(())
    }

    /// The message a peer signs for this policy, its leaf certificate's
    /// digest and its Noise key. The name's length is written in 16 bits.
    pub fn message(&self, leaf_digest: &[u8; 32], noise_key: &[u8; 32]) -> (r: Vec<u8>)
        ensures
            r@ == binding_message(*self, leaf_digest@, noise_key@),
    {
        let mut bytes: Vec<u8> = Vec::new();
        push_bytes(&mut bytes, "sable/certificate-noise-binding/1\0".as_bytes());
        let name = self.expected_name.as_str().as_bytes();
        let n: usize = name.len();
        push_u16(&mut bytes, (n % 65536) as u16);
        push_bytes(&mut bytes, name);
        push_bytes(&mut bytes, leaf_digest);
        push_bytes(&mut bytes, &self.registered_template);
        push_bytes(&mut bytes, &self.audience);
        push_bytes(&mut bytes, &self.challenge);
        push_bytes(&mut bytes, &self.session);
        bytes.push(self.peer_role);
        push_u64(&mut bytes, self.issued_at);
        push_u64(&mut bytes, self.expires_at);
        push_bytes(&mut bytes, noise_key);
        proof {
            assert(bytes@ =~= binding_message(*self, leaf_digest@, noise_key@));
        }
        bytes
    }
}

/// Whether every time is known and not before the epoch.
pub open spec fn times_known(ts: Seq<Option<i64>>) -> bool {
    forall|i: int| 0 <= i < ts.len() ==> ((#[trigger] ts[i]) matches Some(t) && t >= 0)
}

/// The earliest of `e` and the known times of `ts`.
pub open spec fn earliest(e: int, ts: Seq<Option<i64>>) -> int
    decreases ts.len(),
{
    if ts.len() == 0 {
        e
    } else {
        let m = earliest(e, ts.drop_last());
        match ts.last() {
            Some(t) => if (t as int) < m { t as int } else { m },
            None => m,
        }
    }
}

/// The earliest of `e` and the known times of `ts` is no later than `e`
/// nor than any known time of `ts`.
proof fn lemma_earliest_bounded(e: int, ts: Seq<Option<i64>>)
    ensures
        earliest(e, ts) <= e,
        forall|i: int| 0 <= i < ts.len() && #[trigger] ts[i] is Some ==> earliest(e, ts) <= ts[i]->0,
    decreases ts.len(),
{
    if ts.len() > 0 {
        lemma_earliest_bounded(e, ts.drop_last());
        assert forall|i: int| 0 <= i < ts.len() && #[trigger] ts[i] is Some implies earliest(e, ts) <= ts[i]->0 by {
            if i < ts.len() - 1 {
                assert(ts.drop_last()[i] == ts[i]);
            }
        }
    }
}

/// A binding never outlives what it rests on: its expiry is no later than
/// the policy's, than any certificate's end of validity, or than any CRL's
/// next update.
pub proof fn lemma_binding_expiry_bounded(policy_expires: u64, certs: Seq<Option<i64>>, crls: Seq<Option<i64>>)
    ensures
        binding_expiry(policy_expires, certs, crls) <= policy_expires,
        forall|i: int| 0 <= i < certs.len() && #[trigger] certs[i] is Some
            ==> binding_expiry(policy_expires, certs, crls) <= certs[i]->0,
        forall|j: int| 0 <= j < crls.len() && #[trigger] crls[j] is Some
            ==> binding_expiry(policy_expires, certs, crls) <= crls[j]->0,
{
    lemma_earliest_bounded(policy_expires as int, certs);
    lemma_earliest_bounded(earliest(policy_expires as int, certs), crls);
}

/// Lowers `e` to the earliest time of `ts`; `None` when a time is unknown
/// or before the epoch.
fn lower_to(e: u64, ts: &Vec<Option<i64>>) -> (r: Option<u64>)
    ensures
        r is Some <==> times_known(ts@),
        r matches Some(x) ==> x == earliest(e as int, ts@),
{
    let mut cur = e;
    let mut i: usize = 0;
    while i < ts.len()
        invariant
            i <= ts@.len(),
            times_known(ts@.subrange(0, i as int)),
            cur == earliest(e as int, ts@.subrange(0, i as int)),
            cur <= e,
        decreases ts@.len() - i,
    {
        let ghost prefix = ts@.subrange(0, i as int + 1);
        assert(prefix.drop_last() =~= ts@.subrange(0, i as int));
        match ts[i] {
            Some(t) => {
                if t < 0 {
                    assert(!times_known(ts@));
                    return None;
                }
                let t64: u64 = t as u64;
                if t64 < cur {
                    cur = t64;
                }
            },
            None => {
                assert(!times_known(ts@));
                return None;
            },
        }
        i = i + 1;
    }
    assert(ts@.subrange(0, ts@.len() as int) =~= ts@);
    Some(cur)
}

/// The expiry of a binding: the policy's expiry, lowered to the end of
/// validity of every certificate and the next update of every CRL, so that
/// a binding never outlives what it rests on.
pub open spec fn binding_expiry(policy_expires: u64, certs: Seq<Option<i64>>, crls: Seq<Option<i64>>) -> int {
    earliest(earliest(policy_expires as int, certs), crls)
}

/// The binding's expiry; `None` when a certificate's end of validity or a
/// CRL's next update is unknown or before the epoch.
pub fn lowered_expiry(policy_expires: u64, cert_not_after: &Vec<Option<i64>>, crl_next_update: &Vec<Option<i64>>) -> (r: Option<u64>)
    ensures
        r is Some <==> times_known(cert_not_after@) && times_known(crl_next_update@),
        r matches Some(x) ==> x == binding_expiry(policy_expires, cert_not_after@, crl_next_update@),
{
    match lower_to(policy_expires, cert_not_after) {
        Some(e) => lower_to(e, crl_next_update),
        None => None,
    }
}

/// A checked binding, to be consumed by one handshake.
pub struct VerifiedPeer {
    /// The peer's Noise static key.
    pub noise_key: [u8; 32],
    /// SHA-256 of the peer's leaf certificate.
    pub certificate_digest: [u8; 32],
    /// Session the binding is for.
    pub session: [u8; 16],
    /// Role the binding is for.
    pub role: u8,
    /// Expiry of the binding, seconds since the epoch.
    pub expires_at: u64,
    /// Monotonic instant at which the binding lapses, whatever the wall
    /// clock says.
    pub deadline: Instant,
}

impl VerifiedPeer {
    /// Consumes the binding for a session and role at `now`, given whether
    /// the monotonic deadline has been reached; gives the Noise key, the
    /// certificate digest and the deadline. Refused for another session or
    /// role, once the binding has expired, or once the deadline is reached.
    pub fn consume_at(self, session: [u8; 16], role: u8, now: u64, deadline_reached: bool) -> (r: Result<([u8; 32], [u8; 32], Instant)>)
        ensures
            r is Ok <==> session@ == self.session@ && role == self.role && now < self.expires_at && !deadline_reached,
            r matches Ok(keys) ==> keys.0 == self.noise_key && keys.1 == self.certificate_digest && keys.2 == self.deadline,
            r matches Err(e) ==> is_binding_denial(e),
    {
        if !bytes_eq(&session, &self.session) || role != self.role || now >= self.expires_at || deadline_reached {
            return Err(denied());
        }
        Ok((self.noise_key, self.certificate_digest, self.deadline))
    }

    /// Consumes the binding for a session and role at `now`, reading the
    /// monotonic clock for the deadline. Whatever the clock reads, another
    /// session or role, or an expired binding, is refused, and success
    /// gives the Noise key, the certificate digest and the deadline.
    pub fn consume_for(self, session: [u8; 16], role: u8, now: u64) -> (r: Result<([u8; 32], [u8; 32], Instant)>)
        ensures
            r is Ok ==> session@ == self.session@ && role == self.role && now < self.expires_at,
            r matches Ok(keys) ==> keys.0 == self.noise_key && keys.1 == self.certificate_digest && keys.2 == self.deadline,
            r matches Err(e) ==> is_binding_denial(e),
    {
        let reading = monotonic_now();
        let reached = instant_at_or_after(&reading, &self.deadline);
        self.consume_at(session, role, now, reached)
    }
}

/// The X25519 function of the `x25519-dalek` crate on a scalar and a point.
pub uninterp spec fn spec_x25519(k: Seq<u8>, u: Seq<u8>) -> Seq<u8>;

/// Calls `x25519_dalek::x25519(k, u)`: the clamped scalar `k` times the
/// Montgomery point `u`. Claimed: the result is `spec_x25519(k, u)`, a
/// function of the two arrays alone.
#[verifier::external_body]
fn x25519(k: [u8; 32], u: [u8; 32]) -> (r: [u8; 32])
    ensures
        r@ == spec_x25519(k@, u@),
{
    x25519_dalek::x25519(k, u)
}

/// Whether `webpki` accepts an Ed25519 signature over a message under the
/// key of a DER end-entity certificate.
pub uninterp spec fn spec_certificate_signs(leaf: Seq<u8>, message: Seq<u8>, signature: Seq<u8>) -> bool;

/// Parses `leaf` with `webpki::EndEntityCert::try_from` and calls its
/// `verify_signature` with `webpki::ring::ED25519`. Claimed: the result is
/// `spec_certificate_signs` of the three byte strings, `false` when the
/// certificate does not parse, a function of them alone.
#[verifier::external_body]
fn certificate_signs(leaf: &[u8], message: &[u8], signature: &[u8]) -> (b: bool)
    ensures
        b == spec_certificate_signs(leaf@, message@, signature@),
{
    let der = rustls_pki_types::CertificateDer::from(leaf);
    match webpki::EndEntityCert::try_from(&der) {
        Ok(cert) => cert.verify_signature(webpki::ring::ED25519, message, signature).is_ok(),
        Err(_) => false,
    }
}

/// The point a peer's Noise key gives when multiplied by a fixed scalar;
/// all zero for a low-order key.
pub open spec fn noise_key_probe(noise_key: Seq<u8>) -> Seq<u8> {
    spec_x25519(Seq::new(32, |i: int| 0x42u8), noise_key)
}

/// Whether the peer's contribution passes the checks made before chain
/// validation: a 64-byte signature and a Noise key of full order.
pub open spec fn peer_input_ok(noise_key: Seq<u8>, signature: Seq<u8>) -> bool {
    signature.len() == 64 && noise_key_probe(noise_key) != Seq::new(32, |i: int| 0u8)
}

/// Whether a binding is accepted once the policy, the peer's input and
/// the chain have passed: the leaf's key signs the binding message, every
/// validity end is known, and the lowered expiry is not before `now`.
pub open spec fn possession_ok(
    p: BindingPolicy,
    leaf: Seq<u8>,
    noise_key: Seq<u8>,
    signature: Seq<u8>,
    now: u64,
    certs: Seq<Option<i64>>,
    crls: Seq<Option<i64>>,
) -> bool {
    &&& spec_certificate_signs(leaf, binding_message(p, spec_sha256(leaf), noise_key), signature)
    &&& times_known(certs) && times_known(crls)
    &&& now <= binding_expiry(p.expires_at, certs, crls)
}

/// A single-use challenge: `None` once an attempt has consumed it.
pub struct BindingChallenge(pub Option<BindingPolicy>);

/// Checks a peer's possession binding against a policy. `chain` is the
/// outcome of validating the peer's bundle for the policy's DNS name at
/// `now`; `cert_not_after` holds the end of validity of every certificate of
/// the bundle (`None` if it did not parse) and `crl_next_update` the next
/// update of every CRL (`None` if it did not parse or has none). Gives the
/// leaf's digest and the binding's expiry. A chain refusal is passed on;
/// every other refusal is the binding denial.
pub fn check_binding(
    policy: &BindingPolicy,
    leaf: &[u8],
    noise_key: [u8; 32],
    signature: &[u8],
    now: u64,
    chain: Result<()>,
    cert_not_after: &Vec<Option<i64>>,
    crl_next_update: &Vec<Option<i64>>,
) -> (r: Result<([u8; 32], u64)>)
    ensures
        ({
            let p = *policy;
            let pass = policy_valid(p, now) && peer_input_ok(noise_key@, signature@);
            &&& (r is Ok <==> pass && chain is Ok
                && possession_ok(p, leaf@, noise_key@, signature@, now, cert_not_after@, crl_next_update@))
            &&& (pass && chain is Err ==> (r matches Err(e) && chain == Err::<(), SableError>(e)))
            &&& (!(pass && chain is Err) ==> (r matches Err(e) ==> is_binding_denial(e)))
            &&& (r matches Ok(out) ==> out.0@ == spec_sha256(leaf@)
                && out.1 == binding_expiry(p.expires_at, cert_not_after@, crl_next_update@))
        }),
{
    policy.validate(now)?;
    let scalar = [0x42u8; 32];
    let zero = [0u8; 32];
    proof {
        assert(scalar@ =~= Seq::new(32, |i: int| 0x42u8));
        assert(zero@ =~= Seq::new(32, |i: int| 0u8));
    }
    if signature.len() != 64 || bytes_eq(&x25519(scalar, noise_key), &zero) {
        return Err(denied());
    }
    match chain {
        Ok(()) => {},
        Err(e) => return Err(e),
    }
    let digest = sha256(leaf);
    let message = policy.message(&digest, &noise_key);
    if !certificate_signs(leaf, message.as_slice(), signature) {
        return Err(denied());
    }
    let expires_at = match lowered_expiry(policy.expires_at, cert_not_after, crl_next_update) {
        Some(e) => e,
        None => return Err(denied()),
    };
    if expires_at < now {
        return Err(denied());
    }
    Ok((digest, expires_at))
}

/// The end of validity of a bounded DER certificate; `None` when it is
/// outside the bounds or does not parse.
pub open spec fn validity_end(der: Seq<u8>) -> Option<i64> {
    match bounded_certificate_facts(der) {
        Some(f) => Some(f.not_after),
        None => None,
    }
}

/// The next update of a bounded DER CRL; `None` when it is outside the
/// bounds, does not parse, or has none.
pub open spec fn next_update_of(der: Seq<u8>) -> Option<i64> {
    match bounded_crl_facts(der) {
        Some(c) => c.next_update,
        None => None,
    }
}

/// The ends of validity of a bundle's certificates: the leaf, then the
/// intermediates, then the roots.
pub open spec fn bundle_validity_ends(leaf: Seq<u8>, intermediates: Seq<Seq<u8>>, roots: Seq<Seq<u8>>) -> Seq<Option<i64>> {
    seq![validity_end(leaf)] + Seq::new(intermediates.len(), |i: int| validity_end(intermediates[i]))
        + Seq::new(roots.len(), |i: int| validity_end(roots[i]))
}

/// The next updates of a bundle's CRLs.
pub open spec fn bundle_next_updates(crls: Seq<Seq<u8>>) -> Seq<Option<i64>> {
    Seq::new(crls.len(), |i: int| next_update_of(crls[i]))
}

/// Appends the end of validity of every certificate of a list.
fn push_validity_ends(out: &mut Vec<Option<i64>>, ders: &Vec<Vec<u8>>)
    ensures
        final(out)@ == old(out)@ + Seq::new(ders@.len(), |i: int| validity_end(ders@[i]@)),
{
    let ghost start = out@;
    let mut i: usize = 0;
    while i < ders.len()
        invariant
            i <= ders@.len(),
            out@ == start + Seq::new(i as nat, |k: int| validity_end(ders@[k]@)),
        decreases ders@.len() - i,
    {
        let end = match certificate_facts(ders[i].as_slice()) {
            Some(f) => Some(f.not_after),
            None => None,
        };
        out.push(end);
        i = i + 1;
        assert(out@ =~= start + Seq::new(i as nat, |k: int| validity_end(ders@[k]@)));
    }
}

/// The ends of validity of a bundle's certificates.
fn validity_ends(leaf: &[u8], intermediates: &Vec<Vec<u8>>, roots: &Vec<Vec<u8>>) -> (r: Vec<Option<i64>>)
    ensures
        r@ == bundle_validity_ends(leaf@, byte_strings(intermediates@), byte_strings(roots@)),
{
    let mut out: Vec<Option<i64>> = Vec::new();
    let first = match certificate_facts(leaf) {
        Some(f) => Some(f.not_after),
        None => None,
    };
    out.push(first);
    push_validity_ends(&mut out, intermediates);
    push_validity_ends(&mut out, roots);
    assert(out@ =~= bundle_validity_ends(leaf@, byte_strings(intermediates@), byte_strings(roots@)));
    out
}

/// The next updates of a bundle's CRLs.
fn next_updates(crls: &Vec<Vec<u8>>) -> (r: Vec<Option<i64>>)
    ensures
        r@ == bundle_next_updates(byte_strings(crls@)),
{
    let mut out: Vec<Option<i64>> = Vec::new();
    let mut i: usize = 0;
    while i < crls.len()
        invariant
            i <= crls@.len(),
            out@ == Seq::new(i as nat, |k: int| next_update_of(crls@[k]@)),
        decreases crls@.len() - i,
    {
        let next = match crl_facts(crls[i].as_slice()) {
            Some(c) => c.next_update,
            None => None,
        };
        out.push(next);
        i = i + 1;
        assert(out@ =~= Seq::new(i as nat, |k: int| next_update_of(crls@[k]@)));
    }
    assert(out@ =~= bundle_next_updates(byte_strings(crls@)));
    out
}

impl BindingChallenge {
    /// Checks a peer's possession binding for a DER certificate bundle
    /// against the challenge, consuming the challenge first: the bundle is
    /// validated for the policy's DNS name at `now` by `validate_chain`, the
    /// binding decided by `check_binding`, and the binding's monotonic
    /// deadline set to the seconds it has left, counted from the start of
    /// the check. Whatever the clock reads, a binding that fails a check is
    /// refused and success carries the checked fields; a deadline the clock
    /// cannot represent is refused.
    pub fn verify(
        &mut self,
        leaf: &[u8],
        intermediates: &Vec<Vec<u8>>,
        roots: &Vec<Vec<u8>>,
        crls: &Vec<Vec<u8>>,
        noise_key: [u8; 32],
        signature: &[u8],
        now: u64,
    ) -> (r: Result<VerifiedPeer>)
        ensures
            final(self).0 is None,
            old(self).0 is None ==> (r matches Err(e) && is_binding_denial(e)),
            old(self).0 matches Some(p) ==> {
                let pass = policy_valid(p, now) && peer_input_ok(noise_key@, signature@);
                let checks_ok = bundle_checks_ok(
                    leaf@,
                    byte_strings(intermediates@),
                    byte_strings(roots@),
                    byte_strings(crls@),
                    p.expected_name@,
                    now,
                ) && path_accepted(leaf@, byte_strings(intermediates@), byte_strings(roots@), byte_strings(crls@), now);
                let ends = bundle_validity_ends(leaf@, byte_strings(intermediates@), byte_strings(roots@));
                let updates = bundle_next_updates(byte_strings(crls@));
                &&& (r is Ok ==> pass && checks_ok
                    && possession_ok(p, leaf@, noise_key@, signature@, now, ends, updates))
                &&& (!pass ==> (r matches Err(e) && is_binding_denial(e)))
                &&& (pass && !checks_ok ==> (r matches Err(e) && is_denial(e)))
                &&& (r matches Err(e) ==> is_binding_denial(e) || is_denial(e))
                &&& (r matches Ok(peer) ==> {
                    &&& peer.noise_key == noise_key
                    &&& peer.certificate_digest@ == spec_sha256(leaf@)
                    &&& peer.session == p.session
                    &&& peer.role == p.peer_role
                    &&& peer.expires_at == binding_expiry(p.expires_at, ends, updates)
                })
            },
    {
        let checked_at = monotonic_now();
        let policy = match self.0.take() {
            Some(p) => p,
            None => return Err(denied()),
        };
        let chain = validate_chain(leaf, intermediates, roots, crls, policy.expected_name.as_str(), now);
        let ends = validity_ends(leaf, intermediates, roots);
        let updates = next_updates(crls);
        let (digest, expires_at) = check_binding(
            &policy, leaf, noise_key, signature, now, chain, &ends, &updates)?;
        let deadline = match instant_plus_secs(&checked_at, expires_at - now) {
            Some(d) => d,
            None => return Err(denied()),
        };
        Ok(VerifiedPeer {
            noise_key,
            certificate_digest: digest,
            session: policy.session,
            role: policy.peer_role,
            expires_at,
            deadline,
        })
    }
}

} // verus!
