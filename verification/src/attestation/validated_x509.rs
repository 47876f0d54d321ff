//! The decisions of the strict Ed25519 X.509 client-certificate profile:
//! which parsed certificates and CRLs a bounded bundle may carry, given
//! the facts parsing reads from them and the verdict of path validation.
//! Trusted roots, time and the expected DNS name come from verifier policy;
//! CRLs are mandatory for the entire non-root chain.

use vstd::prelude::*;
use crate::codec::{bytes_eq, str_eq};
use crate::error::{cryptographic, Result, SableError};
use core::result::Result as StdResult;
use std::time::Duration;
use webpki::ring::ED25519;
use rustls_pki_types::{CertificateDer, ServerName, TrustAnchor, UnixTime};
use webpki::ExpirationPolicy::Enforce;
use webpki::{BorrowedCertRevocationList, CertRevocationList, EndEntityCert, KeyUsage, RevocationOptionsBuilder};
use x509_parser::{parse_x509_certificate, parse_x509_crl};

verus! {

/// Largest accepted DER certificate, in bytes.
pub const MAX_CERT: usize = 16384;

/// Largest accepted DER CRL, in bytes.
pub const MAX_CRL: usize = 262144;

/// Object identifier of the Ed25519 public-key algorithm.
pub const ED25519_OID: &'static str = "1.3.101.112";

/// The facts of a DER certificate that the profile reads.
pub struct X509Facts {
    /// Length of the DER encoding.
    pub der_len: usize,
    /// Bytes left after the certificate.
    pub trailing: usize,
    /// Object identifier of the public-key algorithm, dotted.
    pub key_algorithm: String,
    /// Whether the algorithm identifier carries parameters.
    pub key_has_params: bool,
    /// Unused bits of the public-key bit string.
    pub key_unused_bits: u8,
    /// Length of the public key in bytes.
    pub key_len: usize,
    /// Start of validity, seconds since the epoch.
    pub not_before: i64,
    /// End of validity, seconds since the epoch.
    pub not_after: i64,
    /// Object identifiers of the extensions, dotted, in order.
    pub extension_oids: Vec<String>,
    /// Basic constraints: `None` when malformed, else the CA flag if present.
    pub basic_constraints: Option<Option<bool>>,
    /// Key usage: `None` when malformed, else the usage flags if present.
    pub key_usage: Option<Option<u16>>,
    /// Extended key usage: `None` when malformed, else `(client_auth, any)`
    /// if present.
    pub extended_key_usage: Option<Option<(bool, bool)>>,
}

/// The facts of a DER CRL that the profile reads.
pub struct CrlFacts {
    /// Length of the DER encoding.
    pub der_len: usize,
    /// Bytes left after the CRL.
    pub trailing: usize,
    /// This update, seconds since the epoch.
    pub last_update: i64,
    /// Next update, if present, seconds since the epoch.
    pub next_update: Option<i64>,
    /// Raw encoding of the issuer name.
    pub issuer: Vec<u8>,
}

/// The error every refusal of the profile reports.
pub open spec fn is_denial(e: SableError) -> bool {
    e matches SableError::Cryptographic(m) && m@ == "Certificate validation rejected"@
}

/// The refusal of the profile.
fn denied() -> (e: SableError)
    ensures
        is_denial(e),
{
    cryptographic("Certificate validation rejected")
}

/// Key-usage bit `i` of the flags.
pub open spec fn usage_bit(flags: u16, i: u16) -> bool {
    (flags >> i) & 1u16 == 1u16
}

/// Key-usage bit `i` of the flags.
fn usage_bit_exec(flags: u16, i: u16) -> (b: bool)
    requires
        i < 16,
    ensures
        b == usage_bit(flags, i),
{
    (flags >> i) & 1u16 == 1u16
}

/// Whether no two extensions share an object identifier.
pub open spec fn oids_distinct(oids: Seq<String>) -> bool {
    forall|i: int, j: int| 0 <= i < j < oids.len() ==> (#[trigger] oids[i])@ != (#[trigger] oids[j])@
}

/// Whether the key usage suits the role: certificate and CRL signing for a
/// CA; digital signature without either for a leaf, which must also carry
/// client-authentication extended key usage without the catch-all.
pub open spec fn usage_ok(f: &X509Facts, ca: bool) -> bool {
    match f.key_usage {
        Some(Some(flags)) => if ca {
            usage_bit(flags, 5) && usage_bit(flags, 6)
        } else {
            &&& usage_bit(flags, 0) && !usage_bit(flags, 5) && !usage_bit(flags, 6)
            &&& f.extended_key_usage matches Some(Some(eku)) && eku.0 && !eku.1
        },
        _ => false,
    }
}

/// The key-usage bits the profile reads, in x509-parser's flag order:
/// digitalSignature is bit 0, keyCertSign bit 5, cRLSign bit 6. A leaf
/// meets the profile only with digitalSignature and without keyCertSign
/// and cRLSign, and with client-authentication extended key usage without
/// the catch-all; a CA only with keyCertSign and cRLSign. Either needs a
/// bare 32-byte Ed25519 key, `now` inside its validity window, nothing
/// after its encoding, and a CA flag (absent meaning no) equal to its role.
pub proof fn lemma_profile_requirements(f: X509Facts, ca: bool, now: i64)
    ensures
        policy_ok(&f, ca, now) ==> {
            &&& f.key_usage matches Some(Some(flags)) && (if ca {
                (flags >> 5u16) & 1u16 == 1u16 && (flags >> 6u16) & 1u16 == 1u16
            } else {
                flags & 1u16 == 1u16 && (flags >> 5u16) & 1u16 == 0u16 && (flags >> 6u16) & 1u16 == 0u16
            })
            &&& !ca ==> (f.extended_key_usage matches Some(Some(eku)) && eku.0 && !eku.1)
            &&& f.key_algorithm@ == "1.3.101.112"@
            &&& !f.key_has_params && f.key_unused_bits == 0 && f.key_len == 32
            &&& f.not_before <= now && now < f.not_after
            &&& f.trailing == 0
            &&& 0 < f.der_len <= 16384
            &&& f.basic_constraints matches Some(bc) && (bc == Some(true)) == ca
        },
{
    if policy_ok(&f, ca, now) {
        if let Some(Some(flags)) = f.key_usage {
            assert(usage_bit(flags, 0) ==> flags & 1u16 == 1u16) by (bit_vector);
            assert((flags >> 5u16) & 1u16 == 1u16 || (flags >> 5u16) & 1u16 == 0u16) by (bit_vector);
            assert((flags >> 6u16) & 1u16 == 1u16 || (flags >> 6u16) & 1u16 == 0u16) by (bit_vector);
        }
    }
}

/// Whether a certificate meets the profile as a CA (`ca`) or as a leaf at
/// time `now`: a bounded DER encoding with nothing after it, a bare 32-byte
/// Ed25519 key, `now` inside the validity window, no repeated extension,
/// well-formed basic constraints whose CA flag (absent meaning no) is
/// `ca`, and a key usage suited to the role.
pub open spec fn policy_ok(f: &X509Facts, ca: bool, now: i64) -> bool {
    &&& 0 < f.der_len <= MAX_CERT
    &&& f.key_algorithm@ == ED25519_OID@
    &&& !f.key_has_params
    &&& f.key_unused_bits == 0
    &&& f.key_len == 32
    &&& f.trailing == 0
    &&& f.not_before <= now < f.not_after
    &&& oids_distinct(f.extension_oids@)
    &&& f.basic_constraints matches Some(bc) && (match bc {
        Some(flag) => flag,
        None => false,
    }) == ca
    &&& usage_ok(f, ca)
}

/// Whether the extension identifiers are all different.
fn extensions_distinct(oids: &Vec<String>) -> (b: bool)
    ensures
        b == oids_distinct(oids@),
{
    let n = oids.len();
    let mut j: usize = 0;
    while j < n
        invariant
            n == oids@.len(),
            j <= n,
            forall|a: int, b: int| 0 <= a < b < j ==> (#[trigger] oids@[a])@ != (#[trigger] oids@[b])@,
        decreases n - j,
    {
        let mut i: usize = 0;
        while i < j
            invariant
                n == oids@.len(),
                i <= j < n,
                forall|a: int| 0 <= a < i ==> (#[trigger] oids@[a])@ != oids@[j as int]@,
            decreases j - i,
        {
            if str_eq(oids[i].as_str(), oids[j].as_str()) {
                return false;
            }
            i = i + 1;
        }
        j = j + 1;
    }
    true
}

/// Checks a certificate's facts against the profile, as a CA (`ca`) or as
/// a leaf, at time `now`.
pub fn certificate_policy_facts(f: &X509Facts, ca: bool, now: i64) -> (r: Result<()>)
    ensures
        r is Ok <==> policy_ok(f, ca, now),
        r matches Err(e) ==> is_denial(e),
{
    if f.der_len == 0 || f.der_len > MAX_CERT {
        return Err(denied());
    }
    if !str_eq(f.key_algorithm.as_str(), ED25519_OID) || f.key_has_params || f.key_unused_bits != 0
        || f.key_len != 32 {
        return Err(denied());
    }
    if f.trailing != 0 || now < f.not_before || now >= f.not_after {
        return Err(denied());
    }
    if !extensions_distinct(&f.extension_oids) {
        return Err(denied());
    }
    let is_ca = match f.basic_constraints {
        None => { return Err(denied()); },
        Some(Some(flag)) => flag,
        Some(None) => false,
    };
    if is_ca != ca {
        return Err(denied());
    }
    let flags = match f.key_usage {
        Some(Some(flags)) => flags,
        _ => { return Err(denied()); },
    };
    if ca {
        if !usage_bit_exec(flags, 5) || !usage_bit_exec(flags, 6) {
            return Err(denied());
        }
    } else {
        if !usage_bit_exec(flags, 0) || usage_bit_exec(flags, 5) || usage_bit_exec(flags, 6) {
            return Err(denied());
        }
        match f.extended_key_usage {
            Some(Some((client_auth, any))) => {
                if !client_auth || any {
                    return Err(denied());
                }
            },
            _ => { return Err(denied()); },
        }
    }
    Ok(())
}

/// Whether a CRL is acceptable at `time`: a bounded DER encoding with
/// nothing after it, issued no later than `time`, and with a next update
/// after both `time` and its issue.
pub open spec fn crl_ok(c: &CrlFacts, time: i64) -> bool {
    &&& 0 < c.der_len <= MAX_CRL
    &&& c.trailing == 0
    &&& c.next_update matches Some(next) && c.last_update <= time && time < next && c.last_update
        < next
}

/// Whether no two CRLs share an issuer (an issuer with two CRLs is
/// ambiguous).
pub open spec fn issuers_distinct(crls: Seq<Option<CrlFacts>>) -> bool {
    forall|i: int, j: int|
        0 <= i < j < crls.len() ==> (#[trigger] crls[i]).unwrap().issuer@ != (#[trigger] crls[j]).unwrap().issuer@
}

/// Whether every entry holds parsed facts meeting the profile as a CA.
pub open spec fn all_ca_ok(certs: Seq<Option<X509Facts>>, now: i64) -> bool {
    forall|i: int| 0 <= i < certs.len() ==> ((#[trigger] certs[i]) matches Some(f) && policy_ok(&f, true, now))
}

/// Whether every entry holds parsed facts of an acceptable CRL.
pub open spec fn all_crls_ok(crls: Seq<Option<CrlFacts>>, time: i64) -> bool {
    forall|i: int| 0 <= i < crls.len() ==> ((#[trigger] crls[i]) matches Some(c) && crl_ok(&c, time))
}

/// Whether a bundle is accepted at time `now`: one to sixteen roots, at
/// most four intermediates, one to sixteen CRLs, a time that fits in 63
/// bits, a leaf meeting the leaf profile, roots and intermediates meeting
/// the CA profile, acceptable CRLs with distinct issuers, and a path that
/// validation (signatures, revocation, name) accepted.
pub open spec fn bundle_ok(
    leaf: Option<X509Facts>,
    intermediates: Seq<Option<X509Facts>>,
    roots: Seq<Option<X509Facts>>,
    crls: Seq<Option<CrlFacts>>,
    now: u64,
    path_ok: bool,
) -> bool {
    &&& counts_ok(roots.len(), intermediates.len(), crls.len())
    &&& now <= i64::MAX
    &&& leaf matches Some(f) && policy_ok(&f, false, now as i64)
    &&& all_ca_ok(roots, now as i64)
    &&& all_ca_ok(intermediates, now as i64)
    &&& all_crls_ok(crls, now as i64)
    &&& issuers_distinct(crls)
    &&& path_ok
}

/// Whether a bundle's counts are within bounds: one to sixteen roots, at
/// most four intermediates and one to sixteen CRLs.
pub open spec fn counts_ok(roots: nat, intermediates: nat, crls: nat) -> bool {
    1 <= roots <= 16 && intermediates <= 4 && 1 <= crls <= 16
}

/// Whether a bundle's counts are within bounds, checked before anything is
/// parsed.
pub fn bundle_counts_ok(roots: usize, intermediates: usize, crls: usize) -> (b: bool)
    ensures
        b == counts_ok(roots as nat, intermediates as nat, crls as nat),
{
    1 <= roots && roots <= 16 && intermediates <= 4 && 1 <= crls && crls <= 16
}

/// Whether every certificate of a list has parsed facts meeting the CA
/// profile.
fn cas_ok(certs: &Vec<Option<X509Facts>>, now: i64) -> (b: bool)
    ensures
        b == all_ca_ok(certs@, now),
{
    let n = certs.len();
    let mut i: usize = 0;
    while i < n
        invariant
            n == certs@.len(),
            i <= n,
            forall|k: int| 0 <= k < i ==> ((#[trigger] certs@[k]) matches Some(f) && policy_ok(&f, true, now)),
        decreases n - i,
    {
        match &certs[i] {
            Some(f) => {
                if certificate_policy_facts(f, true, now).is_err() {
                    return false;
                }
            },
            None => { return false; },
        }
        i = i + 1;
    }
    true
}

/// Whether every CRL of a list has parsed facts that are acceptable.
fn crls_ok(crls: &Vec<Option<CrlFacts>>, time: i64) -> (b: bool)
    ensures
        b == all_crls_ok(crls@, time),
{
    let n = crls.len();
    let mut i: usize = 0;
    while i < n
        invariant
            n == crls@.len(),
            i <= n,
            forall|k: int| 0 <= k < i ==> ((#[trigger] crls@[k]) matches Some(c) && crl_ok(&c, time)),
        decreases n - i,
    {
        match &crls[i] {
            Some(c) => {
                if c.der_len == 0 || c.der_len > MAX_CRL || c.trailing != 0 {
                    return false;
                }
                match c.next_update {
                    Some(next) => {
                        if c.last_update > time || next <= time || next <= c.last_update {
                            return false;
                        }
                    },
                    None => { return false; },
                }
            },
            None => { return false; },
        }
        i = i + 1;
    }
    true
}

/// Whether the CRLs, all parsed, have distinct issuers.
fn crl_issuers_distinct(crls: &Vec<Option<CrlFacts>>) -> (b: bool)
    requires
        forall|k: int| 0 <= k < crls@.len() ==> (#[trigger] crls@[k]) is Some,
    ensures
        b == issuers_distinct(crls@),
{
    let n = crls.len();
    let mut j: usize = 0;
    while j < n
        invariant
            n == crls@.len(),
            j <= n,
            forall|k: int| 0 <= k < crls@.len() ==> (#[trigger] crls@[k]) is Some,
            forall|a: int, b: int|
                0 <= a < b < j ==> (#[trigger] crls@[a]).unwrap().issuer@ != (#[trigger] crls@[b]).unwrap().issuer@,
        decreases n - j,
    {
        let mut i: usize = 0;
        while i < j
            invariant
                n == crls@.len(),
                i <= j < n,
                forall|k: int| 0 <= k < crls@.len() ==> (#[trigger] crls@[k]) is Some,
                forall|a: int| 0 <= a < i ==> (#[trigger] crls@[a]).unwrap().issuer@ != crls@[j as int].unwrap().issuer@,
            decreases j - i,
        {
            let same = match (&crls[i], &crls[j]) {
                (Some(a), Some(b)) => bytes_eq(a.issuer.as_slice(), b.issuer.as_slice()),
                _ => false,
            };
            if same {
                return false;
            }
            i = i + 1;
        }
        j = j + 1;
    }
    true
}

/// Decides a certificate bundle from the facts parsed from its leaf,
/// intermediates, roots and CRLs (`None` where parsing failed) and the
/// verdict of path validation at time `now`.
pub fn validate_chain_facts(
    leaf: &Option<X509Facts>,
    intermediates: &Vec<Option<X509Facts>>,
    roots: &Vec<Option<X509Facts>>,
    crls: &Vec<Option<CrlFacts>>,
    now: u64,
    path_ok: bool,
) -> (r: Result<()>)
    ensures
        r is Ok <==> bundle_ok(*leaf, intermediates@, roots@, crls@, now, path_ok),
        r matches Err(e) ==> is_denial(e),
{
    if !bundle_counts_ok(roots.len(), intermediates.len(), crls.len()) {
        return Err(denied());
    }
    if now > i64::MAX as u64 {
        return Err(denied());
    }
    let time = now as i64;
    match leaf {
        Some(f) => {
            if certificate_policy_facts(f, false, time).is_err() {
                return Err(denied());
            }
        },
        None => { return Err(denied()); },
    }
    if !cas_ok(roots, time) || !cas_ok(intermediates, time) {
        return Err(denied());
    }
    if !crls_ok(crls, time) {
        return Err(denied());
    }
    if !crl_issuers_distinct(crls) {
        return Err(denied());
    }
    if !path_ok {
        return Err(denied());
    }
    Ok(())
}


// ---------------------------------------------------------------------------
// Parsing and path validation of DER input
// ---------------------------------------------------------------------------

/// The facts of a certificate's key and validity that parsing reads.
pub struct CertificateKeyFacts {
    /// Bytes left after the certificate.
    pub trailing: usize,
    /// Object identifier of the public-key algorithm, dotted.
    pub key_algorithm: String,
    /// Whether the algorithm identifier carries parameters.
    pub key_has_params: bool,
    /// Unused bits of the public-key bit string.
    pub key_unused_bits: u8,
    /// Length of the public key in bytes.
    pub key_len: usize,
    /// Start of validity, seconds since the epoch.
    pub not_before: i64,
    /// End of validity, seconds since the epoch.
    pub not_after: i64,
}

/// The facts of a certificate's extensions that parsing reads.
pub struct CertificateExtensionFacts {
    /// Object identifiers of the extensions, dotted, in order.
    pub extension_oids: Vec<String>,
    /// Basic constraints: `None` when malformed, else the CA flag if present.
    pub basic_constraints: Option<Option<bool>>,
    /// Key usage: `None` when malformed, else the usage flags if present.
    pub key_usage: Option<Option<u16>>,
    /// Extended key usage: `None` when malformed, else `(client_auth, any)`
    /// if present.
    pub extended_key_usage: Option<Option<(bool, bool)>>,
}

/// The key and validity facts `x509-parser` reads from a DER certificate;
/// `None` when it does not parse.
pub uninterp spec fn spec_certificate_key_facts(der: Seq<u8>) -> Option<CertificateKeyFacts>;

/// Calls `x509_parser::parse_x509_certificate` and reads the public key's
/// algorithm identifier, parameters, unused bits and length, the validity
/// window, and the length of what follows the certificate. Claimed: the
/// result is `spec_certificate_key_facts(der)`, a function of `der` alone.
#[verifier::external_body]
fn certificate_key_facts(der: &[u8]) -> (r: Option<CertificateKeyFacts>)
    ensures
        r == spec_certificate_key_facts(der@),
{
    let (rest, cert) = match parse_x509_certificate(der) {
        Ok(parsed) => parsed,
        Err(_) => return None,
    };
    let public = cert.public_key();
    Some(CertificateKeyFacts {
        trailing: rest.len(),
        key_algorithm: public.algorithm.algorithm.to_id_string(),
        key_has_params: public.algorithm.parameters.is_some(),
        key_unused_bits: public.subject_public_key.unused_bits,
        key_len: public.subject_public_key.data.len(),
        not_before: cert.validity().not_before.timestamp(),
        not_after: cert.validity().not_after.timestamp(),
    })
}

/// The extension facts `x509-parser` reads from a DER certificate; `None`
/// when it does not parse.
pub uninterp spec fn spec_certificate_extension_facts(der: Seq<u8>) -> Option<CertificateExtensionFacts>;

/// Calls `x509_parser::parse_x509_certificate` and reads the extensions'
/// identifiers, the basic constraints' CA flag, the key-usage flags and the
/// extended key usage's client-auth and catch-all flags, each `None` where
/// the extension is malformed. Claimed: the result is
/// `spec_certificate_extension_facts(der)`, a function of `der` alone.
#[verifier::external_body]
fn certificate_extension_facts(der: &[u8]) -> (r: Option<CertificateExtensionFacts>)
    ensures
        r == spec_certificate_extension_facts(der@),
{
    let (_, cert) = match parse_x509_certificate(der) {
        Ok(parsed) => parsed,
        Err(_) => return None,
    };
    Some(CertificateExtensionFacts {
        extension_oids: cert.extensions().iter().map(|ext| ext.oid.to_id_string()).collect(),
        basic_constraints: cert.basic_constraints().ok().map(|b| b.map(|ext| ext.value.ca)),
        key_usage: cert.key_usage().ok().map(|u| u.map(|ext| ext.value.flags)),
        extended_key_usage: cert.extended_key_usage().ok().map(|u| u.map(|ext| (ext.value.client_auth, ext.value.any))),
    })
}

/// The facts of a DER certificate, from both halves of what parsing reads.
pub open spec fn certificate_facts_of(der: Seq<u8>) -> Option<X509Facts> {
    match (spec_certificate_key_facts(der), spec_certificate_extension_facts(der)) {
        (Some(k), Some(x)) => Some(X509Facts {
            der_len: der.len() as usize,
            trailing: k.trailing,
            key_algorithm: k.key_algorithm,
            key_has_params: k.key_has_params,
            key_unused_bits: k.key_unused_bits,
            key_len: k.key_len,
            not_before: k.not_before,
            not_after: k.not_after,
            extension_oids: x.extension_oids,
            basic_constraints: x.basic_constraints,
            key_usage: x.key_usage,
            extended_key_usage: x.extended_key_usage,
        }),
        _ => None,
    }
}

/// The facts of a DER certificate of 1 to `MAX_CERT` bytes; `None` for a
/// certificate outside those bounds, which is not parsed.
pub open spec fn bounded_certificate_facts(der: Seq<u8>) -> Option<X509Facts> {
    if 0 < der.len() <= MAX_CERT {
        certificate_facts_of(der)
    } else {
        None
    }
}

/// Parses a DER certificate of 1 to `MAX_CERT` bytes into the facts the
/// profile reads; `None` when it is outside those bounds or does not parse.
pub fn certificate_facts(der: &[u8]) -> (r: Option<X509Facts>)
    ensures
        r == bounded_certificate_facts(der@),
{
    if der.len() == 0 || der.len() > MAX_CERT {
        return None;
    }
    let key = certificate_key_facts(der);
    let ext = certificate_extension_facts(der);
    match (key, ext) {
        (Some(k), Some(x)) => Some(X509Facts {
            der_len: der.len(),
            trailing: k.trailing,
            key_algorithm: k.key_algorithm,
            key_has_params: k.key_has_params,
            key_unused_bits: k.key_unused_bits,
            key_len: k.key_len,
            not_before: k.not_before,
            not_after: k.not_after,
            extension_oids: x.extension_oids,
            basic_constraints: x.basic_constraints,
            key_usage: x.key_usage,
            extended_key_usage: x.extended_key_usage,
        }),
        _ => None,
    }
}

/// Checks a DER certificate against the profile, as a CA (`ca`) or as a
/// leaf, at time `now`: refused when it is empty or longer than
/// `MAX_CERT`, does not parse, or its facts fail the profile.
pub fn certificate_policy(der: &[u8], ca: bool, now: i64) -> (r: Result<()>)
    ensures
        r is Ok <==> (bounded_certificate_facts(der@) matches Some(f) && policy_ok(&f, ca, now)),
        r matches Err(e) ==> is_denial(e),
{
    match certificate_facts(der) {
        Some(f) => certificate_policy_facts(&f, ca, now),
        None => Err(denied()),
    }
}

/// The facts `x509-parser` reads from a DER CRL; `None` when it does not
/// parse.
pub uninterp spec fn spec_crl_facts(der: Seq<u8>) -> Option<CrlFacts>;

/// Calls `x509_parser::parse_x509_crl` and reads the length of what follows
/// the CRL, its this-update and next-update times and its issuer's raw
/// encoding. Claimed: the result is `spec_crl_facts(der)`, a function of
/// `der` alone, and it records `der`'s length.
#[verifier::external_body]
fn parsed_crl_facts(der: &[u8]) -> (r: Option<CrlFacts>)
    ensures
        r == spec_crl_facts(der@),
        r matches Some(c) ==> c.der_len == der@.len(),
{
    let (rest, crl) = match parse_x509_crl(der) {
        Ok(parsed) => parsed,
        Err(_) => return None,
    };
    Some(CrlFacts {
        der_len: der.len(),
        trailing: rest.len(),
        last_update: crl.last_update().timestamp(),
        next_update: crl.next_update().map(|t| t.timestamp()),
        issuer: crl.issuer().as_raw().to_vec(),
    })
}

/// The facts of a DER CRL of 1 to `MAX_CRL` bytes; `None` for a CRL
/// outside those bounds, which is not parsed.
pub open spec fn bounded_crl_facts(der: Seq<u8>) -> Option<CrlFacts> {
    if 0 < der.len() <= MAX_CRL {
        spec_crl_facts(der)
    } else {
        None
    }
}

/// Parses a DER CRL of 1 to `MAX_CRL` bytes into the facts the profile
/// reads; `None` when it is outside those bounds or does not parse.
pub fn crl_facts(der: &[u8]) -> (r: Option<CrlFacts>)
    ensures
        r == bounded_crl_facts(der@),
{
    if der.len() == 0 || der.len() > MAX_CRL {
        return None;
    }
    parsed_crl_facts(der)
}

/// The byte strings held by a list of buffers.
pub open spec fn byte_strings(v: Seq<Vec<u8>>) -> Seq<Seq<u8>> {
    Seq::new(v.len(), |i: int| v[i]@)
}

/// `rustls_pki_types::TrustAnchor`, a root as `webpki` trusts it; opaque
/// here.
#[verifier::external_type_specification]
#[verifier::external_body]
pub struct ExTrustAnchor<'a>(TrustAnchor<'a>);

/// The trust anchor `webpki` makes of a DER certificate; `None` when it
/// does not accept the certificate as one.
pub uninterp spec fn spec_trust_anchor(der: Seq<u8>) -> Option<TrustAnchor<'static>>;

/// Calls `webpki::anchor_from_trusted_cert` on `der` and copies the anchor
/// (its subject, key and name constraints) with `TrustAnchor::to_owned`.
/// Claimed: the result is `spec_trust_anchor(der)`, a function of `der`
/// alone.
#[verifier::external_body]
fn trust_anchor(der: &[u8]) -> (r: Option<TrustAnchor<'static>>)
    ensures
        r == spec_trust_anchor(der@),
{
    webpki::anchor_from_trusted_cert(&CertificateDer::from(der)).ok().map(|a| a.to_owned())
}

/// `rustls_pki_types::CertificateDer`, a DER certificate as `webpki` takes
/// it; opaque here.
#[verifier::external_type_specification]
#[verifier::external_body]
pub struct ExCertificateDer<'a>(CertificateDer<'a>);

/// The owned `CertificateDer` holding the bytes `der`.
pub uninterp spec fn spec_certificate_der(der: Seq<u8>) -> CertificateDer<'static>;

/// Copies `der` into an owned `CertificateDer` with `CertificateDer::from`
/// on a `Vec<u8>`. Claimed: the result is `spec_certificate_der(der)`, a
/// function of `der` alone.
#[verifier::external_body]
fn certificate_der(der: &[u8]) -> (r: CertificateDer<'static>)
    ensures
        r == spec_certificate_der(der@),
{
    CertificateDer::from(der.to_vec())
}

/// Whether `webpki` accepts the leaf for client authentication at `now`
/// through the intermediates to one of the anchors, with every CRL checked
/// for the whole chain.
pub uninterp spec fn spec_chain_accepted(
    leaf: CertificateDer<'static>,
    intermediates: Seq<CertificateDer<'static>>,
    anchors: Seq<TrustAnchor<'static>>,
    crls: Seq<Seq<u8>>,
    now: u64,
) -> bool;

/// Parses the CRLs with `BorrowedCertRevocationList::from_der`, makes
/// revocation options over them with `RevocationOptionsBuilder::new`
/// (whole chain, unknown status denied) with CRL expiry enforced, parses
/// the leaf with `EndEntityCert::try_from`, and calls its
/// `verify_for_usage` for Ed25519 and client authentication at `now`
/// through the intermediates to one of the anchors. `false` when a CRL or
/// the leaf does not parse, or there is no CRL. Claimed: the result is
/// `spec_chain_accepted` of its arguments, a function of them alone.
#[verifier::external_body]
fn chain_accepted(
    leaf: &CertificateDer<'static>,
    intermediates: &Vec<CertificateDer<'static>>,
    anchors: &Vec<TrustAnchor<'static>>,
    crls: &Vec<Vec<u8>>,
    now: u64,
) -> (b: bool)
    ensures
        b == spec_chain_accepted(*leaf, intermediates@, anchors@, byte_strings(crls@), now),
{
    let lists: Vec<CertRevocationList> = match crls.iter().map(|d| BorrowedCertRevocationList::from_der(d).map(Into::into)).collect::<StdResult<_, _>>() {
        Ok(l) => l,
        Err(_) => return false,
    };
    let refs: Vec<_> = lists.iter().collect();
    let revocation = match RevocationOptionsBuilder::new(&refs) {
        Ok(builder) => builder.with_expiration_policy(Enforce).build(),
        Err(_) => return false,
    };
    let cert = match EndEntityCert::try_from(leaf) {
        Ok(c) => c,
        Err(_) => return false,
    };
    let time = UnixTime::since_unix_epoch(Duration::from_secs(now));
    cert.verify_for_usage(&[ED25519], anchors, intermediates, time, KeyUsage::client_auth(), Some(revocation), None).is_ok()
}

/// Owned `CertificateDer`s of a list of DER certificates.
fn certificate_ders(ders: &Vec<Vec<u8>>) -> (r: Vec<CertificateDer<'static>>)
    ensures
        r@ == ders_of(byte_strings(ders@)),
{
    let ghost ds = byte_strings(ders@);
    let mut out: Vec<CertificateDer<'static>> = Vec::new();
    let mut i: usize = 0;
    while i < ders.len()
        invariant
            i <= ders@.len(),
            ds == byte_strings(ders@),
            out@ == Seq::new(i as nat, |k: int| spec_certificate_der(ds[k])),
        decreases ders@.len() - i,
    {
        out.push(certificate_der(ders[i].as_slice()));
        i = i + 1;
        assert(out@ =~= Seq::new(i as nat, |k: int| spec_certificate_der(ds[k])));
    }
    assert(out@ =~= ders_of(ds));
    out
}

/// The owned `CertificateDer`s of DER certificates, in order.
pub open spec fn ders_of(ders: Seq<Seq<u8>>) -> Seq<CertificateDer<'static>> {
    Seq::new(ders.len(), |i: int| spec_certificate_der(ders[i]))
}

/// Whether every root is accepted as a trust anchor.
pub open spec fn anchors_parse(roots: Seq<Seq<u8>>) -> bool {
    forall|i: int| 0 <= i < roots.len() ==> (#[trigger] spec_trust_anchor(roots[i])) is Some
}

/// The trust anchors of the roots, in order.
pub open spec fn anchors_of(roots: Seq<Seq<u8>>) -> Seq<TrustAnchor<'static>> {
    Seq::new(roots.len(), |i: int| spec_trust_anchor(roots[i]).unwrap())
}

/// Whether path validation accepts a DER bundle at `now`: every root is a
/// trust anchor and `webpki` accepts the chain to them.
pub open spec fn path_accepted(
    leaf: Seq<u8>,
    intermediates: Seq<Seq<u8>>,
    roots: Seq<Seq<u8>>,
    crls: Seq<Seq<u8>>,
    now: u64,
) -> bool {
    &&& anchors_parse(roots)
    &&& spec_chain_accepted(spec_certificate_der(leaf), ders_of(intermediates), anchors_of(roots), crls, now)
}

/// The trust anchors of the roots; `None` when one is not accepted.
fn trust_anchors(roots: &Vec<Vec<u8>>) -> (r: Option<Vec<TrustAnchor<'static>>>)
    ensures
        r is Some == anchors_parse(byte_strings(roots@)),
        r matches Some(v) ==> v@ == anchors_of(byte_strings(roots@)),
{
    let ghost rs = byte_strings(roots@);
    let mut out: Vec<TrustAnchor<'static>> = Vec::new();
    let mut i: usize = 0;
    while i < roots.len()
        invariant
            i <= roots@.len(),
            rs == byte_strings(roots@),
            forall|k: int| 0 <= k < i ==> (#[trigger] spec_trust_anchor(rs[k])) is Some,
            out@ == Seq::new(i as nat, |k: int| spec_trust_anchor(rs[k]).unwrap()),
        decreases roots@.len() - i,
    {
        match trust_anchor(roots[i].as_slice()) {
            Some(a) => {
                out.push(a);
            },
            None => {
                assert(spec_trust_anchor(rs[i as int]) is None);
                return None;
            },
        }
        i = i + 1;
        assert(out@ =~= Seq::new(i as nat, |k: int| spec_trust_anchor(rs[k]).unwrap()));
    }
    assert(out@ =~= anchors_of(rs));
    Some(out)
}

/// Whether `webpki` accepts the leaf as valid for the DNS name `name`.
pub uninterp spec fn spec_name_accepted(leaf: Seq<u8>, name: Seq<char>) -> bool;

/// Parses the leaf with `EndEntityCert::try_from` and the name with
/// `ServerName::try_from`, and calls `verify_is_valid_for_subject_name`.
/// Claimed: the result is `spec_name_accepted(leaf, name)`, `false` when
/// either does not parse, a function of them alone.
#[verifier::external_body]
fn name_accepted(leaf: &[u8], name: &str) -> (b: bool)
    ensures
        b == spec_name_accepted(leaf@, name@),
{
    let der = CertificateDer::from(leaf);
    match (EndEntityCert::try_from(&der), ServerName::try_from(name)) {
        (Ok(cert), Ok(server)) => cert.verify_is_valid_for_subject_name(&server).is_ok(),
        _ => false,
    }
}

/// Whether a DER bundle passes every check at `now` for the DNS name
/// `name` but path validation: the facts of its bounded certificates and
/// CRLs meet the profile, and the leaf is valid for the name.
pub open spec fn bundle_checks_ok(
    leaf: Seq<u8>,
    intermediates: Seq<Seq<u8>>,
    roots: Seq<Seq<u8>>,
    crls: Seq<Seq<u8>>,
    name: Seq<char>,
    now: u64,
) -> bool {
    &&& bundle_ok(
        bounded_certificate_facts(leaf),
        Seq::new(intermediates.len(), |i: int| bounded_certificate_facts(intermediates[i])),
        Seq::new(roots.len(), |i: int| bounded_certificate_facts(roots[i])),
        Seq::new(crls.len(), |i: int| bounded_crl_facts(crls[i])),
        now,
        true,
    )
    &&& spec_name_accepted(leaf, name)
}

/// Parses every certificate of a list.
fn certificate_facts_all(ders: &Vec<Vec<u8>>) -> (r: Vec<Option<X509Facts>>)
    ensures
        r@ == Seq::new(ders@.len(), |i: int| bounded_certificate_facts(ders@[i]@)),
{
    let mut out: Vec<Option<X509Facts>> = Vec::new();
    let mut i: usize = 0;
    while i < ders.len()
        invariant
            i <= ders@.len(),
            out@ == Seq::new(i as nat, |k: int| bounded_certificate_facts(ders@[k]@)),
        decreases ders@.len() - i,
    {
        out.push(certificate_facts(ders[i].as_slice()));
        i = i + 1;
        assert(out@ =~= Seq::new(i as nat, |k: int| bounded_certificate_facts(ders@[k]@)));
    }
    out
}

/// Parses every CRL of a list.
fn crl_facts_all(ders: &Vec<Vec<u8>>) -> (r: Vec<Option<CrlFacts>>)
    ensures
        r@ == Seq::new(ders@.len(), |i: int| bounded_crl_facts(ders@[i]@)),
{
    let mut out: Vec<Option<CrlFacts>> = Vec::new();
    let mut i: usize = 0;
    while i < ders.len()
        invariant
            i <= ders@.len(),
            out@ == Seq::new(i as nat, |k: int| bounded_crl_facts(ders@[k]@)),
        decreases ders@.len() - i,
    {
        out.push(crl_facts(ders[i].as_slice()));
        i = i + 1;
        assert(out@ =~= Seq::new(i as nat, |k: int| bounded_crl_facts(ders@[k]@)));
    }
    out
}

/// Validates a bounded DER certificate bundle under the strict client-auth
/// profile for the DNS name `expected_name` at `now`. The counts are checked
/// before anything is parsed, and path validation runs only once every
/// other check has passed. Success means the chain, name and revocation
/// policy passed; it says nothing of possession of the key.
pub fn validate_chain(
    leaf: &[u8],
    intermediates: &Vec<Vec<u8>>,
    roots: &Vec<Vec<u8>>,
    crls: &Vec<Vec<u8>>,
    expected_name: &str,
    now: u64,
) -> (r: Result<()>)
    ensures
        r is Ok <==> bundle_checks_ok(
            leaf@,
            byte_strings(intermediates@),
            byte_strings(roots@),
            byte_strings(crls@),
            expected_name@,
            now,
        ) && path_accepted(leaf@, byte_strings(intermediates@), byte_strings(roots@), byte_strings(crls@), now),
        r matches Err(e) ==> is_denial(e),
{
    if !bundle_counts_ok(roots.len(), intermediates.len(), crls.len()) {
        return Err(denied());
    }
    let leaf_facts = certificate_facts(leaf);
    let intermediate_facts = certificate_facts_all(intermediates);
    let root_facts = certificate_facts_all(roots);
    let crl_list = crl_facts_all(crls);
    proof {
        assert(intermediate_facts@ =~= Seq::new(intermediates@.len(), |i: int| bounded_certificate_facts(byte_strings(intermediates@)[i])));
        assert(root_facts@ =~= Seq::new(roots@.len(), |i: int| bounded_certificate_facts(byte_strings(roots@)[i])));
        assert(crl_list@ =~= Seq::new(crls@.len(), |i: int| bounded_crl_facts(byte_strings(crls@)[i])));
    }
    validate_chain_facts(&leaf_facts, &intermediate_facts, &root_facts, &crl_list, now, true)?;
    let anchors = match trust_anchors(roots) {
        Some(a) => a,
        None => return Err(denied()),
    };
    let leaf_der = certificate_der(leaf);
    let intermediate_ders = certificate_ders(intermediates);
    if !name_accepted(leaf, expected_name) || !chain_accepted(&leaf_der, &intermediate_ders, &anchors, crls, now) {
        return Err(denied());
    }
    Ok(())
}

} // verus!
