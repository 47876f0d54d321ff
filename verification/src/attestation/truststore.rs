//! Trust store of root certificates with trust levels and certificate pins.

use vstd::prelude::*;
use vstd::string::StringExecFns;
use vstd::utf8::{decode_utf8, valid_utf8};
use crate::codec::{
    be16, be32, be64, copy_range, get_u16, get_u32, get_u64, lemma_be16_roundtrip,
    lemma_be32_roundtrip, lemma_be64_roundtrip, push_bytes, push_u16, push_u32, push_u64, read16,
    read32, read64, str_eq,
};
use crate::error::{cryptographic, invalid_input, Result, SableError};
use crate::platform::{sha256, spec_sha256, string_from_utf8, unix_time_now};
use crate::attestation::x509::{
    array32, certificate_der, certificate_fields, certificate_well_formed, lemma_certificate_roundtrip,
    parse_certificate, derive_public, signature_accepted, spec_sign, utf8, CertificateModel, SableCertificate,
    SigningKey, VerifyingKey,
};

verus! {

// ---------------------------------------------------------------------------
// Trust levels
// ---------------------------------------------------------------------------

/// Trust level of a root certificate; a lower code is more trusted.
#[derive(Debug, Clone, Copy, PartialEq, Eq, Structural)]
pub enum TrustLevel {
    /// Government-issued certificate authorities.
    Government,
    /// Enterprise or organisational certificate authorities.
    Enterprise,
    /// Community-trusted certificate authorities.
    Community,
}

/// The byte that encodes a trust level.
pub open spec fn level_code(l: TrustLevel) -> u8 {
    match l {
        TrustLevel::Government => 0,
        TrustLevel::Enterprise => 1,
        TrustLevel::Community => 2,
    }
}

/// The trust level a byte denotes, if any.
pub open spec fn level_of(b: u8) -> Option<TrustLevel> {
    if b == 0 {
        Some(TrustLevel::Government)
    } else if b == 1 {
        Some(TrustLevel::Enterprise)
    } else if b == 2 {
        Some(TrustLevel::Community)
    } else {
        None
    }
}

/// Whether level `a` is at least as trusted as level `b`.
pub open spec fn at_least(a: TrustLevel, b: TrustLevel) -> bool {
    level_code(a) <= level_code(b)
}

impl TrustLevel {
    /// Converts from the byte representation.
    pub fn from_byte(b: u8) -> (r: Option<Self>)
        ensures
            r == level_of(b),
    {
        match b {
            0 => Some(TrustLevel::Government),
            1 => Some(TrustLevel::Enterprise),
            2 => Some(TrustLevel::Community),
            _ => None,
        }
    }

    /// Converts to the byte representation.
    pub fn to_byte(self) -> (b: u8)
        ensures
            b == level_code(self),
    {
        match self {
            TrustLevel::Government => 0,
            TrustLevel::Enterprise => 1,
            TrustLevel::Community => 2,
        }
    }

    /// Whether this level is at least as trusted as `other`.
    pub fn is_at_least(&self, other: TrustLevel) -> (b: bool)
        ensures
            b == at_least(*self, other),
    {
        self.to_byte() <= other.to_byte()
    }
}

impl Default for TrustLevel {
    fn default() -> (l: Self)
        ensures
            l == TrustLevel::Community,
    {
        TrustLevel::Community
    }
}

/// Decoding a trust level's byte gives back that level.
pub proof fn lemma_level_roundtrip(l: TrustLevel)
    ensures
        level_of(level_code(l)) == Some(l),
{
}

/// "At least as trusted as" is a total preorder: reflexive, transitive and
/// total; and it is antisymmetric, so it orders the levels linearly.
pub proof fn lemma_at_least_total_order(a: TrustLevel, b: TrustLevel, c: TrustLevel)
    ensures
        at_least(a, a),
        at_least(a, b) && at_least(b, c) ==> at_least(a, c),
        at_least(a, b) || at_least(b, a),
        at_least(a, b) && at_least(b, a) ==> a == b,
{
}

// ---------------------------------------------------------------------------
// Certificate pins
// ---------------------------------------------------------------------------

/// The pinned hash of a subject name.
pub open spec fn subject_pin_hash(subject: Seq<char>) -> Seq<u8> {
    spec_sha256(utf8("SABLE-PIN-SUBJECT-V1"@) + utf8(subject))
}

/// The pinned hash of a public key.
pub open spec fn key_pin_hash(key: Seq<u8>) -> Seq<u8> {
    spec_sha256(utf8("SABLE-PIN-PUBKEY-V1"@) + key)
}

/// Abstract content of a certificate pin.
pub struct PinModel {
    pub subject_hash: Seq<u8>,
    pub public_key_hash: Seq<u8>,
}

/// Whether a certificate has the subject and key a pin records.
pub open spec fn pin_matches(p: PinModel, c: CertificateModel) -> bool {
    p.subject_hash == subject_pin_hash(c.subject) && p.public_key_hash == key_pin_hash(c.public_key)
}

/// Hashes of the subject and public key expected of a known issuer.
#[derive(Debug, Clone, Copy, PartialEq, Eq)]
pub struct CertificatePin {
    subject_hash: [u8; 32],
    public_key_hash: [u8; 32],
}

impl View for CertificatePin {
    type V = PinModel;

    closed spec fn view(&self) -> PinModel {
        PinModel { subject_hash: self.subject_hash@, public_key_hash: self.public_key_hash@ }
    }
}

impl CertificatePin {
    /// The pin of a certificate's subject and public key.
    pub fn from_certificate(cert: &SableCertificate) -> (p: Self)
        ensures
            p@ == (PinModel {
                subject_hash: subject_pin_hash(cert@.subject),
                public_key_hash: key_pin_hash(cert@.public_key),
            }),
    {
        CertificatePin {
            subject_hash: Self::compute_subject_hash(cert.subject()),
            public_key_hash: Self::compute_public_key_hash(cert.subject_public_key()),
        }
    }

    /// A pin from raw hashes.
    pub fn new(subject_hash: [u8; 32], public_key_hash: [u8; 32]) -> (p: Self)
        ensures
            p@ == (PinModel { subject_hash: subject_hash@, public_key_hash: public_key_hash@ }),
    {
        CertificatePin { subject_hash, public_key_hash }
    }

    /// The pinned hash of a subject name.
    pub fn compute_subject_hash(subject: &str) -> (h: [u8; 32])
        ensures
            h@ == subject_pin_hash(subject@),
    {
        let mut input: Vec<u8> = Vec::new();
        push_bytes(&mut input, "SABLE-PIN-SUBJECT-V1".as_bytes());
        push_bytes(&mut input, subject.as_bytes());
        sha256(input.as_slice())
    }

    /// The pinned hash of a public key.
    pub fn compute_public_key_hash(public_key: &[u8; 32]) -> (h: [u8; 32])
        ensures
            h@ == key_pin_hash(public_key@),
    {
        let mut input: Vec<u8> = Vec::new();
        push_bytes(&mut input, "SABLE-PIN-PUBKEY-V1".as_bytes());
        push_bytes(&mut input, public_key.as_slice());
        sha256(input.as_slice())
    }

    /// The subject hash.
    pub fn subject_hash(&self) -> (h: &[u8; 32])
        ensures
            h@ == self@.subject_hash,
    {
        &self.subject_hash
    }

    /// The public key hash.
    pub fn public_key_hash(&self) -> (h: &[u8; 32])
        ensures
            h@ == self@.public_key_hash,
    {
        &self.public_key_hash
    }

    /// Whether the certificate matches the pin, compared in constant time.
    pub fn matches(&self, cert: &SableCertificate) -> (b: bool)
        ensures
            b == pin_matches(self@, cert@),
    {
        let cert_subject_hash = Self::compute_subject_hash(cert.subject());
        let cert_pk_hash = Self::compute_public_key_hash(cert.subject_public_key());
        constant_time_eq(&self.subject_hash, &cert_subject_hash) && constant_time_eq(
            &self.public_key_hash,
            &cert_pk_hash,
        )
    }

    /// The 64-byte encoding: subject hash, then public key hash.
    pub fn to_bytes(&self) -> (b: Vec<u8>)
        ensures
            b@ == self@.subject_hash + self@.public_key_hash,
    {
        let mut bytes: Vec<u8> = Vec::new();
        push_bytes(&mut bytes, self.subject_hash.as_slice());
        push_bytes(&mut bytes, self.public_key_hash.as_slice());
        bytes
    }

    /// Decodes a pin from the first 64 bytes; shorter input is refused.
    pub fn from_bytes(bytes: &[u8]) -> (r: Result<Self>)
        ensures
            r is Ok <==> bytes@.len() >= 64,
            r matches Ok(p) ==> p@ == (PinModel {
                subject_hash: bytes@.subrange(0, 32),
                public_key_hash: bytes@.subrange(32, 64),
            }),
            r matches Err(e) ==> e is InvalidInput,
    {
        if bytes.len() < 64 {
            return Err(invalid_input("Certificate pin data too short"));
        }
        Ok(CertificatePin { subject_hash: array32(bytes, 0), public_key_hash: array32(bytes, 32) })
    }
}

/// Decoding a pin's encoding gives back that pin.
pub proof fn lemma_pin_roundtrip(p: PinModel)
    requires
        p.subject_hash.len() == 32,
        p.public_key_hash.len() == 32,
    ensures
        (p.subject_hash + p.public_key_hash).subrange(0, 32) == p.subject_hash,
        (p.subject_hash + p.public_key_hash).subrange(32, 64) == p.public_key_hash,
{
    assert((p.subject_hash + p.public_key_hash).subrange(0, 32) =~= p.subject_hash);
    assert((p.subject_hash + p.public_key_hash).subrange(32, 64) =~= p.public_key_hash);
}

/// Byte-array equality that examines every byte whatever the data.
pub fn constant_time_eq(a: &[u8; 32], b: &[u8; 32]) -> (r: bool)
    ensures
        r == (a@ == b@),
{
    let mut result: u8 = 0;
    let mut i: usize = 0;
    while i < 32
        invariant
            i <= 32,
            (result == 0) == (forall|j: int| 0 <= j < i ==> a@[j] == b@[j]),
        decreases 32 - i,
    {
        let x = a[i];
        let y = b[i];
        let prev = result;
        result = result | (x ^ y);
        assert((prev | (x ^ y)) == 0u8 <==> (prev == 0u8 && x == y)) by (bit_vector);
        i = i + 1;
    }
    assert((result == 0) ==> a@ =~= b@);
    result == 0
}

// ---------------------------------------------------------------------------
// Trusted roots
// ---------------------------------------------------------------------------

/// Abstract content of a trusted root.
pub struct RootModel {
    pub certificate: CertificateModel,
    pub trust_level: TrustLevel,
    pub added_at: u64,
    pub description: Option<Seq<char>>,
}

/// A trusted root certificate with its trust level and metadata.
#[derive(Debug, Clone)]
pub struct TrustedRoot {
    certificate: SableCertificate,
    trust_level: TrustLevel,
    added_at: u64,
    description: Option<String>,
}

impl View for TrustedRoot {
    type V = RootModel;

    closed spec fn view(&self) -> RootModel {
        RootModel {
            certificate: self.certificate@,
            trust_level: self.trust_level,
            added_at: self.added_at,
            description: match self.description {
                Some(d) => Some(d@),
                None => None,
            },
        }
    }
}

impl TrustedRoot {
    /// A trusted root added now; a clock before the epoch reads as 0.
    pub fn new(certificate: SableCertificate, trust_level: TrustLevel) -> (r: Self)
        ensures
            r@.certificate == certificate@,
            r@.trust_level == trust_level,
            r@.description is None,
    {
        let added_at = match unix_time_now() {
            Some(t) => t,
            None => 0,
        };
        Self::new_with_timestamp(certificate, trust_level, added_at)
    }

    /// A trusted root added at `added_at`.
    pub fn new_with_timestamp(certificate: SableCertificate, trust_level: TrustLevel, added_at: u64) -> (r: Self)
        ensures
            r@ == (RootModel { certificate: certificate@, trust_level, added_at, description: None }),
    {
        TrustedRoot { certificate, trust_level, added_at, description: None }
    }

    /// The same root with a description.
    pub fn with_description(self, description: &str) -> (r: Self)
        ensures
            r@ == (RootModel { description: Some(description@), ..self@ }),
    {
        TrustedRoot { description: Some(String::from_str(description)), ..self }
    }

    /// The certificate.
    pub fn certificate(&self) -> (c: &SableCertificate)
        ensures
            c@ == self@.certificate,
    {
        &self.certificate
    }

    /// The trust level.
    pub fn trust_level(&self) -> (l: TrustLevel)
        ensures
            l == self@.trust_level,
    {
        self.trust_level
    }

    /// When the root was added.
    pub fn added_at(&self) -> (t: u64)
        ensures
            t == self@.added_at,
    {
        self.added_at
    }

    /// The description, if any.
    pub fn description(&self) -> (d: Option<&str>)
        ensures
            d matches Some(s) ==> self@.description == Some(s@),
            d is None <==> self@.description is None,
    {
        match &self.description {
            Some(s) => Some(s.as_str()),
            None => None,
        }
    }

    /// The subject name of the certificate.
    pub fn subject(&self) -> (s: &str)
        ensures
            s@ == self@.certificate.subject,
    {
        self.certificate.subject()
    }
}

// ---------------------------------------------------------------------------
// Keyed sequences: maps from names to values, one entry per name
// ---------------------------------------------------------------------------

/// Whether some entry has key `k`.
pub open spec fn has_key<V>(es: Seq<(Seq<char>, V)>, k: Seq<char>) -> bool {
    exists|i: int| 0 <= i < es.len() && #[trigger] es[i].0 == k
}

/// Position of an entry with key `k`.
pub open spec fn key_index<V>(es: Seq<(Seq<char>, V)>, k: Seq<char>) -> int {
    choose|i: int| 0 <= i < es.len() && #[trigger] es[i].0 == k
}

/// The value stored under `k`, if any.
pub open spec fn lookup<V>(es: Seq<(Seq<char>, V)>, k: Seq<char>) -> Option<V> {
    if has_key(es, k) {
        Some(es[key_index(es, k)].1)
    } else {
        None
    }
}

/// Whether no two entries share a key.
pub open spec fn keys_unique<V>(es: Seq<(Seq<char>, V)>) -> bool {
    forall|i: int, j: int|
        0 <= i < es.len() && 0 <= j < es.len() && i != j ==> #[trigger] es[i].0 != #[trigger] es[j].0
}

/// Stores `v` under `k`: replaces the entry with key `k` in place, or adds
/// a new entry at the end.
pub open spec fn upsert<V>(es: Seq<(Seq<char>, V)>, k: Seq<char>, v: V) -> Seq<(Seq<char>, V)> {
    if has_key(es, k) {
        es.update(key_index(es, k), (k, v))
    } else {
        es.push((k, v))
    }
}

/// Removes the entry with key `k`, if any.
pub open spec fn remove_key<V>(es: Seq<(Seq<char>, V)>, k: Seq<char>) -> Seq<(Seq<char>, V)> {
    if has_key(es, k) {
        es.remove(key_index(es, k))
    } else {
        es
    }
}

/// With unique keys, looking up an entry's key finds that entry's value.
pub proof fn lemma_lookup_at<V>(es: Seq<(Seq<char>, V)>, i: int)
    requires
        keys_unique(es),
        0 <= i < es.len(),
    ensures
        key_index(es, es[i].0) == i,
        lookup(es, es[i].0) == Some(es[i].1),
{
    assert(has_key(es, es[i].0));
    let j = key_index(es, es[i].0);
    assert(es[j].0 == es[i].0);
}

/// Storing under a key: that key now finds the new value, every other key
/// finds what it found before, and keys stay unique.
pub proof fn lemma_upsert<V>(es: Seq<(Seq<char>, V)>, k: Seq<char>, v: V)
    requires
        keys_unique(es),
    ensures
        keys_unique(upsert(es, k, v)),
        forall|k2: Seq<char>| #[trigger]
            lookup(upsert(es, k, v), k2) == if k2 == k {
                Some(v)
            } else {
                lookup(es, k2)
            },
        has_key(es, k) ==> upsert(es, k, v).len() == es.len(),
        !has_key(es, k) ==> upsert(es, k, v).len() == es.len() + 1,
{
    let u = upsert(es, k, v);
    if has_key(es, k) {
        let idx = key_index(es, k);
        assert(keys_unique(u)) by {
            assert forall|i: int, j: int|
                0 <= i < u.len() && 0 <= j < u.len() && i != j implies #[trigger] u[i].0
                != #[trigger] u[j].0 by {
                if i == idx {
                    assert(es[j].0 != es[idx].0);
                } else if j == idx {
                    assert(es[i].0 != es[idx].0);
                } else {
                }
            }
        }
    } else {
        assert(keys_unique(u)) by {
            assert forall|i: int, j: int|
                0 <= i < u.len() && 0 <= j < u.len() && i != j implies #[trigger] u[i].0
                != #[trigger] u[j].0 by {
                if i == es.len() {
                    assert(es[j].0 != k);
                } else if j == es.len() {
                    assert(es[i].0 != k);
                } else {
                }
            }
        }
    }
    assert forall|k2: Seq<char>| #[trigger]
        lookup(u, k2) == if k2 == k {
            Some(v)
        } else {
            lookup(es, k2)
        } by {
        if has_key(es, k) {
            let idx = key_index(es, k);
            if k2 == k {
                assert(u[idx].0 == k);
                lemma_lookup_at(u, idx);
            } else if has_key(es, k2) {
                let j = key_index(es, k2);
                assert(j != idx);
                assert(u[j] == es[j]);
                lemma_lookup_at(u, j);
            } else {
                assert forall|i: int| 0 <= i < u.len() implies #[trigger] u[i].0 != k2 by {
                    if i != idx {
                        assert(u[i] == es[i]);
                    }
                }
            }
        } else {
            let last = es.len() as int;
            if k2 == k {
                lemma_lookup_at(u, last);
            } else if has_key(es, k2) {
                let j = key_index(es, k2);
                assert(u[j] == es[j]);
                lemma_lookup_at(u, j);
            } else {
                assert forall|i: int| 0 <= i < u.len() implies #[trigger] u[i].0 != k2 by {
                    if i != last {
                        assert(u[i] == es[i]);
                    }
                }
            }
        }
    }
}

/// Removing a key: that key now finds nothing, every other key finds what
/// it found before, and keys stay unique.
pub proof fn lemma_remove_key<V>(es: Seq<(Seq<char>, V)>, k: Seq<char>)
    requires
        keys_unique(es),
    ensures
        keys_unique(remove_key(es, k)),
        forall|k2: Seq<char>| #[trigger]
            lookup(remove_key(es, k), k2) == if k2 == k {
                None
            } else {
                lookup(es, k2)
            },
        has_key(es, k) ==> remove_key(es, k).len() == es.len() - 1,
{
    let u = remove_key(es, k);
    if has_key(es, k) {
        let idx = key_index(es, k);
        assert forall|i: int| 0 <= i < u.len() implies #[trigger] u[i] == if i < idx {
            es[i]
        } else {
            es[i + 1]
        } by {}
        assert(keys_unique(u)) by {
            assert forall|i: int, j: int|
                0 <= i < u.len() && 0 <= j < u.len() && i != j implies #[trigger] u[i].0
                != #[trigger] u[j].0 by {
                let a = if i < idx { i } else { i + 1 };
                let b = if j < idx { j } else { j + 1 };
                assert(es[a].0 != es[b].0);
            }
        }
        assert forall|k2: Seq<char>| #[trigger]
            lookup(u, k2) == if k2 == k {
                None
            } else {
                lookup(es, k2)
            } by {
            if k2 == k {
                assert forall|i: int| 0 <= i < u.len() implies #[trigger] u[i].0 != k2 by {
                    let a = if i < idx { i } else { i + 1 };
                    assert(es[a].0 != es[idx].0);
                }
            } else if has_key(es, k2) {
                let j = key_index(es, k2);
                assert(j != idx);
                let jj = if j < idx { j } else { j - 1 };
                assert(u[jj] == es[j]);
                lemma_lookup_at(u, jj);
            } else {
                assert forall|i: int| 0 <= i < u.len() implies #[trigger] u[i].0 != k2 by {
                    let a = if i < idx { i } else { i + 1 };
                    assert(u[i] == es[a]);
                }
            }
        }
    }
}

// ---------------------------------------------------------------------------
// Trust store
// ---------------------------------------------------------------------------

/// Abstract state of a trust store: roots and pins keyed by subject name.
pub struct StoreModel {
    pub roots: Seq<(Seq<char>, RootModel)>,
    pub pins: Seq<(Seq<char>, PinModel)>,
    pub last_updated: u64,
    pub version: u64,
}

/// The state invariant of a trust store: one root and at most one pin per
/// subject, a pin only for a subject that has a root, every root stored
/// under its certificate's subject and without description, and every pin
/// matching the certificate of the root stored under the same subject.
pub open spec fn store_invariant(s: StoreModel) -> bool {
    &&& keys_unique(s.roots)
    &&& keys_unique(s.pins)
    &&& forall|k: Seq<char>| #[trigger] has_key(s.pins, k) ==> has_key(s.roots, k)
    &&& roots_self_keyed(s.roots)
    &&& pins_match_roots(s.pins, s.roots)
}

/// Whether every root is stored under its certificate's subject and carries
/// no description.
pub open spec fn roots_self_keyed(roots: Seq<(Seq<char>, RootModel)>) -> bool {
    forall|k: Seq<char>| #[trigger]
        has_key(roots, k) ==> lookup(roots, k).unwrap().certificate.subject == k && lookup(
            roots,
            k,
        ).unwrap().description is None
}

/// Whether every pin matches the certificate of the root stored under the
/// same subject.
pub open spec fn pins_match_roots(pins: Seq<(Seq<char>, PinModel)>, roots: Seq<(Seq<char>, RootModel)>) -> bool {
    forall|k: Seq<char>| #[trigger]
        has_key(pins, k) ==> pin_matches(lookup(pins, k).unwrap(), lookup(roots, k).unwrap().certificate)
}

/// Whether the pins accept a certificate: a pin is stored for its subject
/// and matches the certificate.
pub open spec fn pin_accepts(pins: Seq<(Seq<char>, PinModel)>, c: CertificateModel) -> bool {
    match lookup(pins, c.subject) {
        Some(p) => pin_matches(p, c),
        None => false,
    }
}

/// The pin a certificate yields.
pub open spec fn pin_of(c: CertificateModel) -> PinModel {
    PinModel { subject_hash: subject_pin_hash(c.subject), public_key_hash: key_pin_hash(c.public_key) }
}

/// A pin accepts a certificate exactly when it holds the tagged SHA-256
/// hashes of that certificate's subject and of its public key.
pub proof fn lemma_pin_binds_subject_and_key(p: PinModel, c: CertificateModel)
    ensures
        pin_matches(p, c) <==> p.subject_hash == spec_sha256(utf8("SABLE-PIN-SUBJECT-V1"@) + utf8(c.subject))
            && p.public_key_hash == spec_sha256(utf8("SABLE-PIN-PUBKEY-V1"@) + c.public_key),
{
}

/// The pin taken from a certificate accepts it, and accepts another
/// certificate only when the tagged hashes of their subjects agree and the
/// tagged hashes of their public keys agree.
pub proof fn lemma_pin_of_other_certificate(a: CertificateModel, b: CertificateModel)
    ensures
        pin_matches(pin_of(a), a),
        pin_matches(pin_of(a), b) ==> spec_sha256(utf8("SABLE-PIN-PUBKEY-V1"@) + a.public_key) == spec_sha256(
            utf8("SABLE-PIN-PUBKEY-V1"@) + b.public_key,
        ) && spec_sha256(utf8("SABLE-PIN-SUBJECT-V1"@) + utf8(a.subject)) == spec_sha256(
            utf8("SABLE-PIN-SUBJECT-V1"@) + utf8(b.subject),
        ),
{
}

/// The pins accept a certificate only when a pin is stored under its
/// subject holding the tagged hashes of its subject and public key.
pub proof fn lemma_pin_accepts_requires_key(pins: Seq<(Seq<char>, PinModel)>, c: CertificateModel)
    ensures
        pin_accepts(pins, c) ==> (lookup(pins, c.subject) matches Some(p)
            && p.subject_hash == spec_sha256(utf8("SABLE-PIN-SUBJECT-V1"@) + utf8(c.subject))
            && p.public_key_hash == spec_sha256(utf8("SABLE-PIN-PUBKEY-V1"@) + c.public_key)),
{
}

/// The roots at least as trusted as `min`, in store order.
pub open spec fn roots_at(es: Seq<(Seq<char>, RootModel)>, min: TrustLevel) -> Seq<RootModel>
    decreases es.len(),
{
    if es.len() == 0 {
        Seq::empty()
    } else {
        let rest = roots_at(es.drop_last(), min);
        if at_least(es.last().1.trust_level, min) {
            rest.push(es.last().1)
        } else {
            rest
        }
    }
}

#[derive(Debug, Clone)]
struct RootSlot {
    subject: String,
    root: TrustedRoot,
}

#[derive(Debug, Clone)]
struct PinSlot {
    subject: String,
    pin: CertificatePin,
}

/// Store of trusted root certificates and certificate pins.
#[derive(Debug, Clone)]
pub struct TrustStore {
    roots: Vec<RootSlot>,
    pins: Vec<PinSlot>,
    last_updated: u64,
    version: u64,
}

spec fn root_entries(v: Seq<RootSlot>) -> Seq<(Seq<char>, RootModel)> {
    v.map_values(|s: RootSlot| (s.subject@, s.root@))
}

spec fn pin_entries(v: Seq<PinSlot>) -> Seq<(Seq<char>, PinModel)> {
    v.map_values(|s: PinSlot| (s.subject@, s.pin@))
}

impl View for TrustStore {
    type V = StoreModel;

    closed spec fn view(&self) -> StoreModel {
        StoreModel {
            roots: root_entries(self.roots@),
            pins: pin_entries(self.pins@),
            last_updated: self.last_updated,
            version: self.version,
        }
    }
}

impl Default for TrustStore {
    fn default() -> (s: Self)
        ensures
            s.wf(),
            s@.roots.len() == 0,
            s@.pins.len() == 0,
            s@.version == 1,
    {
        Self::new()
    }
}

/// Seconds since the epoch now; a clock before the epoch reads as 0.
fn now_or_zero() -> u64 {
    match unix_time_now() {
        Some(t) => t,
        None => 0,
    }
}

impl TrustStore {
    /// Whether the store satisfies its state invariant.
    pub open spec fn wf(&self) -> bool {
        store_invariant(self@)
    }

    /// An empty store at version 1, updated now.
    pub fn new() -> (s: Self)
        ensures
            s.wf(),
            s@.roots.len() == 0,
            s@.pins.len() == 0,
            s@.version == 1,
    {
        let s = TrustStore { roots: Vec::new(), pins: Vec::new(), last_updated: now_or_zero(), version: 1 };
        assert(s@.roots =~= Seq::<(Seq<char>, RootModel)>::empty());
        assert(s@.pins =~= Seq::<(Seq<char>, PinModel)>::empty());
        s
    }

    /// Position of the root stored under `subject`.
    fn find_root(&self, subject: &str) -> (r: Option<usize>)
        requires
            keys_unique(self@.roots),
        ensures
            r is None <==> !has_key(self@.roots, subject@),
            r matches Some(i) ==> i < self@.roots.len() && self@.roots[i as int].0 == subject@
                && key_index(self@.roots, subject@) == i,
    {
        let n = self.roots.len();
        let mut i: usize = 0;
        while i < n
            invariant
                n == self.roots@.len(),
                i <= n,
                keys_unique(self@.roots),
                forall|j: int| 0 <= j < i ==> self@.roots[j].0 != subject@,
            decreases n - i,
        {
            assert(self@.roots[i as int].0 == self.roots@[i as int].subject@);
            if str_eq(self.roots[i].subject.as_str(), subject) {
                proof { lemma_lookup_at(self@.roots, i as int); }
                return Some(i);
            }
            i = i + 1;
        }
        None
    }

    /// Position of the pin stored under `subject`.
    fn find_pin(&self, subject: &str) -> (r: Option<usize>)
        requires
            keys_unique(self@.pins),
        ensures
            r is None <==> !has_key(self@.pins, subject@),
            r matches Some(i) ==> i < self@.pins.len() && self@.pins[i as int].0 == subject@
                && key_index(self@.pins, subject@) == i,
    {
        let n = self.pins.len();
        let mut i: usize = 0;
        while i < n
            invariant
                n == self.pins@.len(),
                i <= n,
                keys_unique(self@.pins),
                forall|j: int| 0 <= j < i ==> self@.pins[j].0 != subject@,
            decreases n - i,
        {
            assert(self@.pins[i as int].0 == self.pins@[i as int].subject@);
            if str_eq(self.pins[i].subject.as_str(), subject) {
                proof { lemma_lookup_at(self@.pins, i as int); }
                return Some(i);
            }
            i = i + 1;
        }
        None
    }

    /// Stores a root under `subject`, replacing any root stored there.
    fn store_root(&mut self, subject: String, root: TrustedRoot)
        requires
            keys_unique(old(self)@.roots),
        ensures
            final(self)@ == (StoreModel { roots: upsert(old(self)@.roots, subject@, root@), ..old(self)@ }),
    {
        let ghost k = subject@;
        let ghost v = root@;
        match self.find_root(subject.as_str()) {
            Some(i) => {
                self.roots.set(i, RootSlot { subject, root });
                assert(self@.roots =~= upsert(old(self)@.roots, k, v));
            },
            None => {
                self.roots.push(RootSlot { subject, root });
                assert(self@.roots =~= upsert(old(self)@.roots, k, v));
            },
        }
    }

    /// Stores a pin under `subject`, replacing any pin stored there.
    fn store_pin(&mut self, subject: String, pin: CertificatePin)
        requires
            keys_unique(old(self)@.pins),
        ensures
            final(self)@ == (StoreModel { pins: upsert(old(self)@.pins, subject@, pin@), ..old(self)@ }),
    {
        let ghost k = subject@;
        let ghost v = pin@;
        match self.find_pin(subject.as_str()) {
            Some(i) => {
                self.pins.set(i, PinSlot { subject, pin });
                assert(self@.pins =~= upsert(old(self)@.pins, k, v));
            },
            None => {
                self.pins.push(PinSlot { subject, pin });
                assert(self@.pins =~= upsert(old(self)@.pins, k, v));
            },
        }
    }

    /// Drops the pin stored under `subject`, if any.
    fn drop_pin(&mut self, subject: &str)
        requires
            keys_unique(old(self)@.pins),
        ensures
            final(self)@ == (StoreModel { pins: remove_key(old(self)@.pins, subject@), ..old(self)@ }),
    {
        match self.find_pin(subject) {
            Some(i) => {
                self.pins.remove(i);
                assert(self@.pins =~= remove_key(old(self)@.pins, subject@));
            },
            None => {
                assert(self@.pins =~= remove_key(old(self)@.pins, subject@));
            },
        }
    }

    /// Records a modification: the update time becomes now and the version
    /// increases by one.
    fn touch(&mut self)
        requires
            old(self)@.version < u64::MAX,
        ensures
            final(self)@.roots == old(self)@.roots,
            final(self)@.pins == old(self)@.pins,
            final(self)@.version == old(self)@.version + 1,
    {
        self.last_updated = now_or_zero();
        self.version = self.version + 1;
    }

    /// Adds a root certificate at `level`, with a pin of its subject and key,
    /// both stored under the certificate's subject (replacing any there).
    pub fn add_root(&mut self, cert: SableCertificate, level: TrustLevel) -> (r: Result<()>)
        requires
            old(self).wf(),
            old(self)@.version < u64::MAX,
        ensures
            r is Ok,
            final(self).wf(),
            final(self)@.version == old(self)@.version + 1,
            final(self)@.pins == upsert(old(self)@.pins, cert@.subject, pin_of(cert@)),
            exists|t: u64|
                final(self)@.roots == upsert(
                    old(self)@.roots,
                    cert@.subject,
                    RootModel { certificate: cert@, trust_level: level, added_at: t, description: None },
                ),
    {
        let subject = String::from_str(cert.subject());
        let pin_subject = String::from_str(cert.subject());
        let pin = CertificatePin::from_certificate(&cert);
        let trusted_root = TrustedRoot::new(cert, level);
        let ghost root_model = trusted_root@;
        self.store_root(subject, trusted_root);
        self.store_pin(pin_subject, pin);
        self.touch();
        proof {
            lemma_upsert(old(self)@.roots, root_model.certificate.subject, root_model);
            lemma_upsert(old(self)@.pins, root_model.certificate.subject, pin@);
            assert forall|k: Seq<char>| #[trigger] has_key(self@.pins, k) implies has_key(self@.roots, k) by {
                if k != root_model.certificate.subject {
                    assert(lookup(self@.pins, k) == lookup(old(self)@.pins, k));
                    assert(lookup(self@.roots, k) == lookup(old(self)@.roots, k));
                } else {
                    assert(lookup(self@.roots, k) is Some);
                }
            }
        }
        Ok(())
    }

    /// Removes the root and pin stored under `subject`; fails when no root
    /// is stored there, leaving the store unchanged.
    pub fn remove_root(&mut self, subject: &str) -> (r: Result<()>)
        requires
            old(self).wf(),
            old(self)@.version < u64::MAX,
        ensures
            final(self).wf(),
            r is Ok <==> has_key(old(self)@.roots, subject@),
            r is Ok ==> final(self)@.roots == remove_key(old(self)@.roots, subject@)
                && final(self)@.pins == remove_key(old(self)@.pins, subject@)
                && final(self)@.version == old(self)@.version + 1,
            r is Err ==> final(self)@ == old(self)@,
            r matches Err(e) ==> e is InvalidInput,
    {
        match self.find_root(subject) {
            None => {
                let mut msg = String::from_str("Root certificate not found: ");
                msg.append(subject);
                return Err(SableError::InvalidInput(msg));
            },
            Some(i) => {
                self.roots.remove(i);
                assert(self@.roots =~= remove_key(old(self)@.roots, subject@));
            },
        }
        match self.find_pin(subject) {
            None => {
                assert(self@.pins =~= remove_key(old(self)@.pins, subject@));
            },
            Some(i) => {
                self.pins.remove(i);
                assert(self@.pins =~= remove_key(old(self)@.pins, subject@));
            },
        }
        self.touch();
        proof {
            lemma_remove_key(old(self)@.roots, subject@);
            lemma_remove_key(old(self)@.pins, subject@);
            assert forall|k: Seq<char>| #[trigger] has_key(self@.pins, k) implies has_key(self@.roots, k) by {
                assert(lookup(self@.pins, k) == lookup(old(self)@.pins, k));
                assert(lookup(self@.roots, k) == lookup(old(self)@.roots, k));
            }
        }
        Ok(())
    }

    /// Whether a pin is stored for the certificate's subject and the
    /// certificate matches it (its subject and public-key hashes).
    pub fn verify_pin(&self, cert: &SableCertificate) -> (b: bool)
        requires
            self.wf(),
        ensures
            b == pin_accepts(self@.pins, cert@),
    {
        match self.find_pin(cert.subject()) {
            Some(i) => {
                assert(self@.pins[i as int].1 == self.pins@[i as int].pin@);
                self.pins[i].pin.matches(cert)
            },
            None => false,
        }
    }

    /// The trust level of the root stored under `issuer`.
    pub fn get_trust_level(&self, issuer: &str) -> (r: Option<TrustLevel>)
        requires
            self.wf(),
        ensures
            r == (match lookup(self@.roots, issuer@) {
                Some(root) => Some(root.trust_level),
                None => None,
            }),
    {
        match self.find_root(issuer) {
            Some(i) => {
                assert(self@.roots[i as int].1 == self.roots@[i as int].root@);
                Some(self.roots[i].root.trust_level())
            },
            None => None,
        }
    }

    /// The root stored under `subject`.
    pub fn get_root(&self, subject: &str) -> (r: Option<&TrustedRoot>)
        requires
            self.wf(),
        ensures
            r matches Some(root) ==> lookup(self@.roots, subject@) == Some(root@),
            r is None <==> lookup(self@.roots, subject@) is None,
    {
        match self.find_root(subject) {
            Some(i) => {
                assert(self@.roots[i as int].1 == self.roots@[i as int].root@);
                Some(&self.roots[i].root)
            },
            None => None,
        }
    }

    /// All trusted roots, in store order.
    pub fn roots(&self) -> (r: Vec<&TrustedRoot>)
        ensures
            r@.len() == self@.roots.len(),
            forall|i: int| 0 <= i < r@.len() ==> (#[trigger] r@[i])@ == self@.roots[i].1,
    {
        let mut out: Vec<&TrustedRoot> = Vec::new();
        let n = self.roots.len();
        let mut i: usize = 0;
        while i < n
            invariant
                n == self.roots@.len(),
                i <= n,
                out@.len() == i,
                forall|j: int| 0 <= j < i ==> (#[trigger] out@[j])@ == self@.roots[j].1,
            decreases n - i,
        {
            out.push(&self.roots[i].root);
            i = i + 1;
        }
        out
    }

    /// The roots at least as trusted as `min_level`, in store order.
    pub fn roots_at_level(&self, min_level: TrustLevel) -> (r: Vec<&TrustedRoot>)
        ensures
            r@.map_values(|x: &TrustedRoot| x@) == roots_at(self@.roots, min_level),
    {
        let mut out: Vec<&TrustedRoot> = Vec::new();
        let n = self.roots.len();
        let mut i: usize = 0;
        while i < n
            invariant
                n == self.roots@.len(),
                i <= n,
                out@.map_values(|x: &TrustedRoot| x@) == roots_at(self@.roots.subrange(0, i as int), min_level),
            decreases n - i,
        {
            let root = &self.roots[i].root;
            let ghost before = out@.map_values(|x: &TrustedRoot| x@);
            proof {
                assert(self@.roots.subrange(0, i + 1).drop_last() =~= self@.roots.subrange(0, i as int));
                assert(self@.roots.subrange(0, i + 1).last() == self@.roots[i as int]);
            }
            if root.trust_level().is_at_least(min_level) {
                out.push(root);
                assert(out@.map_values(|x: &TrustedRoot| x@) =~= before.push(root@));
            }
            i = i + 1;
        }
        assert(self@.roots.subrange(0, n as int) =~= self@.roots);
        out
    }

    /// The number of trusted roots.
    pub fn root_count(&self) -> (n: usize)
        ensures
            n == self@.roots.len(),
    {
        self.roots.len()
    }

    /// Whether a root is stored under `subject`.
    pub fn is_trusted(&self, subject: &str) -> (b: bool)
        requires
            self.wf(),
        ensures
            b == has_key(self@.roots, subject@),
    {
        match self.find_root(subject) {
            Some(_) => true,
            None => false,
        }
    }

    /// The time of the last modification.
    pub fn last_updated(&self) -> (t: u64)
        ensures
            t == self@.last_updated,
    {
        self.last_updated
    }

    /// The store version, increased by each modification.
    pub fn version(&self) -> (v: u64)
        ensures
            v == self@.version,
    {
        self.version
    }

    /// Removes every root and pin.
    pub fn clear(&mut self)
        requires
            old(self)@.version < u64::MAX,
        ensures
            final(self).wf(),
            final(self)@.roots.len() == 0,
            final(self)@.pins.len() == 0,
            final(self)@.version == old(self)@.version + 1,
    {
        self.roots.clear();
        self.pins.clear();
        self.touch();
        assert(self@.roots =~= Seq::<(Seq<char>, RootModel)>::empty());
        assert(self@.pins =~= Seq::<(Seq<char>, PinModel)>::empty());
    }
}

// ---------------------------------------------------------------------------
// Export and import
// ---------------------------------------------------------------------------

/// The pin part of an exported root: flag 1 and the pin when the subject
/// has a pin, else flag 0.
pub open spec fn pin_part(pins: Seq<(Seq<char>, PinModel)>, subject: Seq<char>) -> Seq<u8> {
    match lookup(pins, subject) {
        Some(p) => seq![1u8] + p.subject_hash + p.public_key_hash,
        None => seq![0u8],
    }
}

/// The exported record of one root: certificate with a 32-bit length, trust
/// level byte, time added, subject with a 16-bit length, then the pin part.
pub open spec fn root_record(pins: Seq<(Seq<char>, PinModel)>, subject: Seq<char>, r: RootModel) -> Seq<u8> {
    let der = certificate_der(r.certificate);
    be32(der.len() as u32) + der + seq![level_code(r.trust_level)] + be64(r.added_at) + be16(
        utf8(subject).len() as u16,
    ) + utf8(subject) + pin_part(pins, subject)
}

/// The exported records of the roots, in order.
pub open spec fn records_bytes(pins: Seq<(Seq<char>, PinModel)>, es: Seq<(Seq<char>, RootModel)>) -> Seq<u8>
    decreases es.len(),
{
    if es.len() == 0 {
        Seq::empty()
    } else {
        records_bytes(pins, es.drop_last()) + root_record(pins, es.last().0, es.last().1)
    }
}

/// The export of a store: version, update time, root count (32 bits), then
/// one record per root.
pub open spec fn store_bytes(s: StoreModel) -> Seq<u8> {
    be64(s.version) + be64(s.last_updated) + be32(s.roots.len() as u32) + records_bytes(s.pins, s.roots)
}

/// One imported record.
pub struct RecordModel {
    pub subject: Seq<char>,
    pub root: RootModel,
    pub pin: Option<PinModel>,
}

/// The record encoded at offset `p`, and the offset after it, if it fits.
pub open spec fn parse_record(d: Seq<u8>, p: int) -> Option<(RecordModel, int)> {
    let cl = read32(d, p) as int;
    let q1 = p + 4 + cl;
    let sl = read16(d, q1 + 9) as int;
    let q2 = q1 + 11 + sl;
    if p + 4 > d.len() || q1 > d.len() {
        None
    } else if parse_certificate(d.subrange(p + 4, q1)) is None {
        None
    } else if q1 + 1 > d.len() || level_of(d[q1]) is None {
        None
    } else if q1 + 9 > d.len() || q1 + 11 > d.len() || q2 > d.len() {
        None
    } else if !valid_utf8(d.subrange(q1 + 11, q2)) || q2 + 1 > d.len() {
        None
    } else {
        let root = RootModel {
            certificate: parse_certificate(d.subrange(p + 4, q1)).unwrap(),
            trust_level: level_of(d[q1]).unwrap(),
            added_at: read64(d, q1 + 1),
            description: None,
        };
        let subject = decode_utf8(d.subrange(q1 + 11, q2));
        if d[q2] == 1 {
            if q2 + 65 > d.len() {
                None
            } else {
                Some(
                    (
                        RecordModel {
                            subject,
                            root,
                            pin: Some(
                                PinModel {
                                    subject_hash: d.subrange(q2 + 1, q2 + 33),
                                    public_key_hash: d.subrange(q2 + 33, q2 + 65),
                                },
                            ),
                        },
                        q2 + 65,
                    ),
                )
            }
        } else {
            Some((RecordModel { subject, root, pin: None }, q2 + 1))
        }
    }
}

/// The first `n` records encoded from offset `p`, and the offset after them.
pub open spec fn parse_records(d: Seq<u8>, p: int, n: nat) -> Option<(Seq<RecordModel>, int)>
    decreases n,
{
    if n == 0 {
        Some((Seq::empty(), p))
    } else {
        match parse_records(d, p, (n - 1) as nat) {
            None => None,
            Some(prev) => match parse_record(d, prev.1) {
                None => None,
                Some(r) => Some((prev.0.push(r.0), r.1)),
            },
        }
    }
}

/// The roots that importing the records yields: each stored under its
/// subject, later records replacing earlier ones.
pub open spec fn roots_from(rs: Seq<RecordModel>) -> Seq<(Seq<char>, RootModel)>
    decreases rs.len(),
{
    if rs.len() == 0 {
        Seq::empty()
    } else {
        upsert(roots_from(rs.drop_last()), rs.last().subject, rs.last().root)
    }
}

/// The pins that importing the records yields: a record without a pin
/// drops any pin an earlier record left for its subject.
pub open spec fn pins_from(rs: Seq<RecordModel>) -> Seq<(Seq<char>, PinModel)>
    decreases rs.len(),
{
    if rs.len() == 0 {
        Seq::empty()
    } else {
        match rs.last().pin {
            Some(p) => upsert(pins_from(rs.drop_last()), rs.last().subject, p),
            None => remove_key(pins_from(rs.drop_last()), rs.last().subject),
        }
    }
}

/// Why the record at offset `p` cannot be read, when the reason is the
/// store format's own; `None` when its certificate is refused (the
/// certificate parser's error is then reported).
pub open spec fn record_refusal(d: Seq<u8>, p: int) -> Option<Seq<char>> {
    let cl = read32(d, p) as int;
    let q1 = p + 4 + cl;
    let sl = read16(d, q1 + 9) as int;
    let q2 = q1 + 11 + sl;
    if p + 4 > d.len() {
        Some("Trust store data truncated"@)
    } else if q1 > d.len() {
        Some("Certificate data truncated"@)
    } else if parse_certificate(d.subrange(p + 4, q1)) is None {
        None
    } else if q1 + 1 > d.len() {
        Some("Trust level missing"@)
    } else if level_of(d[q1]) is None {
        Some("Invalid trust level"@)
    } else if q1 + 9 > d.len() {
        Some("Added timestamp missing"@)
    } else if q1 + 11 > d.len() {
        Some("Subject length missing"@)
    } else if q2 > d.len() {
        Some("Subject data truncated"@)
    } else if !valid_utf8(d.subrange(q1 + 11, q2)) {
        Some("Invalid subject encoding"@)
    } else if q2 + 1 > d.len() {
        Some("Pin flag missing"@)
    } else {
        Some("Pin data truncated"@)
    }
}

/// The refusal of the first of the first `n` records from offset `p` that
/// cannot be read.
pub open spec fn records_refusal(d: Seq<u8>, p: int, n: nat) -> Option<Seq<char>>
    decreases n,
{
    if n == 0 {
        None
    } else {
        match parse_records(d, p, (n - 1) as nat) {
            None => records_refusal(d, p, (n - 1) as nat),
            Some(prev) => record_refusal(d, prev.1),
        }
    }
}

/// Why an export is refused (when the reason is the store format's own):
/// too short, the first unreadable record, or a record that does not match
/// its certificate.
pub open spec fn store_refusal(d: Seq<u8>) -> Option<Seq<char>> {
    if d.len() < 20 {
        Some("Trust store data too short"@)
    } else {
        match parse_records(d, 20, read32(d, 16) as nat) {
            None => records_refusal(d, 20, read32(d, 16) as nat),
            Some(_) => Some("Trust store record does not match its certificate"@),
        }
    }
}

/// The first unreadable record decides the refusal of any longer run.
proof fn lemma_refusal_of_first_bad_record(d: Seq<u8>, p: int, k: nat, m: nat)
    requires
        parse_records(d, p, k) is Some,
        parse_record(d, parse_records(d, p, k).unwrap().1) is None,
        k < m,
    ensures
        records_refusal(d, p, m) == record_refusal(d, parse_records(d, p, k).unwrap().1),
    decreases m - k,
{
    if m > k + 1 {
        lemma_refusal_of_first_bad_record(d, p, k, (m - 1) as nat);
        lemma_parse_records_stays_none(d, p, k + 1, (m - 1) as nat);
    }
}

/// Whether an imported record is consistent: stored under its
/// certificate's subject, without description, and with a pin (if any) that
/// matches its certificate.
pub open spec fn record_consistent(r: RecordModel) -> bool {
    &&& r.root.certificate.subject == r.subject
    &&& r.root.description is None
    &&& r.pin matches Some(p) ==> pin_matches(p, r.root.certificate)
}

/// Whether every imported record is consistent.
pub open spec fn records_consistent(rs: Seq<RecordModel>) -> bool {
    forall|i: int| 0 <= i < rs.len() ==> record_consistent(#[trigger] rs[i])
}

/// The store an export encodes, if any: the records must all be
/// consistent.
pub open spec fn parse_store(d: Seq<u8>) -> Option<StoreModel> {
    if d.len() < 20 {
        None
    } else {
        match parse_records(d, 20, read32(d, 16) as nat) {
            None => None,
            Some(rs) => if records_consistent(rs.0) {
                Some(
                    StoreModel {
                        roots: roots_from(rs.0),
                        pins: pins_from(rs.0),
                        last_updated: read64(d, 8),
                        version: read64(d, 0),
                    },
                )
            } else {
                None
            },
        }
    }
}

/// Once the records run out of room, asking for more records fails too.
proof fn lemma_parse_records_stays_none(d: Seq<u8>, p: int, n: nat, m: nat)
    requires
        parse_records(d, p, n) is None,
        n <= m,
    ensures
        parse_records(d, p, m) is None,
    decreases m - n,
{
    if n < m {
        lemma_parse_records_stays_none(d, p, n, (m - 1) as nat);
    }
}

/// An import of records one of which is stored under a subject other than
/// its certificate's, carries a description, or carries a pin that does not
/// match its certificate is refused; an accepted import gives a store whose
/// every root is stored under its own subject and whose every pin matches
/// the root stored under the same subject.
pub proof fn lemma_import_consistency(d: Seq<u8>)
    ensures
        d.len() >= 20 ==> (parse_records(d, 20, read32(d, 16) as nat) matches Some(rs) ==> ((exists|i: int|
            0 <= i < rs.0.len() && !record_consistent(#[trigger] rs.0[i])) ==> parse_store(d) is None)),
        parse_store(d) matches Some(t) ==> store_invariant(t),
{
    if d.len() >= 20 {
        if let Some(rs) = parse_records(d, 20, read32(d, 16) as nat) {
            lemma_from_records_invariant(rs.0);
        }
    }
}

/// Importing records keeps subjects unique and pins only where roots are;
/// consistent records also leave every root under its own subject without
/// description, and every pin matching its root.
proof fn lemma_from_records_invariant(rs: Seq<RecordModel>)
    ensures
        keys_unique(roots_from(rs)),
        keys_unique(pins_from(rs)),
        forall|k: Seq<char>| #[trigger] has_key(pins_from(rs), k) ==> has_key(roots_from(rs), k),
        records_consistent(rs) ==> roots_self_keyed(roots_from(rs)),
        records_consistent(rs) ==> pins_match_roots(pins_from(rs), roots_from(rs)),
    decreases rs.len(),
{
    if rs.len() > 0 {
        let prev = rs.drop_last();
        lemma_from_records_invariant(prev);
        let r = rs.last();
        lemma_upsert(roots_from(prev), r.subject, r.root);
        match r.pin {
            Some(p) => { lemma_upsert(pins_from(prev), r.subject, p); },
            None => { lemma_remove_key(pins_from(prev), r.subject); },
        }
        assert forall|k: Seq<char>| #[trigger] has_key(pins_from(rs), k) implies has_key(roots_from(rs), k) by {
            assert(lookup(pins_from(rs), k) is Some);
            if k != r.subject {
                assert(lookup(roots_from(rs), k) == lookup(roots_from(prev), k));
                assert(lookup(pins_from(rs), k) == lookup(pins_from(prev), k));
            } else {
                assert(lookup(roots_from(rs), k) is Some);
            }
        }
        if records_consistent(rs) {
            assert(records_consistent(prev)) by {
                assert forall|i: int| 0 <= i < prev.len() implies record_consistent(#[trigger] prev[i]) by {
                    assert(prev[i] == rs[i]);
                }
            }
            assert(record_consistent(rs[rs.len() - 1]));
            assert forall|k: Seq<char>| #[trigger] has_key(roots_from(rs), k) implies lookup(
                roots_from(rs),
                k,
            ).unwrap().certificate.subject == k && lookup(roots_from(rs), k).unwrap().description is None by {
                assert(lookup(roots_from(rs), k) is Some);
                if k != r.subject {
                    assert(lookup(roots_from(rs), k) == lookup(roots_from(prev), k));
                }
            }
            assert forall|k: Seq<char>| #[trigger] has_key(pins_from(rs), k) implies pin_matches(
                lookup(pins_from(rs), k).unwrap(),
                lookup(roots_from(rs), k).unwrap().certificate,
            ) by {
                assert(lookup(pins_from(rs), k) is Some);
                if k != r.subject {
                    assert(lookup(roots_from(rs), k) == lookup(roots_from(prev), k));
                    assert(lookup(pins_from(rs), k) == lookup(pins_from(prev), k));
                    assert(has_key(pins_from(prev), k));
                }
            }
        }
    }
}

impl TrustStore {
    /// Encodes the store: version, update time, root count, and one record
    /// per root in store order.
    pub fn export(&self) -> (data: Vec<u8>)
        requires
            self.wf(),
        ensures
            data@ == store_bytes(self@),
    {
        let mut data: Vec<u8> = Vec::new();
        push_u64(&mut data, self.version);
        push_u64(&mut data, self.last_updated);
        push_u32(&mut data, self.roots.len() as u32);
        let ghost head = data@;
        let n = self.roots.len();
        let mut i: usize = 0;
        while i < n
            invariant
                n == self.roots@.len(),
                i <= n,
                self.wf(),
                data@ == head + records_bytes(self@.pins, self@.roots.subrange(0, i as int)),
            decreases n - i,
        {
            self.write_record(&mut data, i);
            proof {
                let es = self@.roots.subrange(0, i + 1);
                assert(es.drop_last() =~= self@.roots.subrange(0, i as int));
                assert(es.last() == self@.roots[i as int]);
            }
            i = i + 1;
        }
        assert(self@.roots.subrange(0, n as int) =~= self@.roots);
        data
    }

    /// Appends the export record of the root at position `i`.
    fn write_record(&self, data: &mut Vec<u8>, i: usize)
        requires
            self.wf(),
            i < self@.roots.len(),
        ensures
            final(data)@ == old(data)@ + root_record(self@.pins, self@.roots[i as int].0, self@.roots[i as int].1),
    {
        let slot = &self.roots[i];
        assert(self@.roots[i as int] == (slot.subject@, slot.root@));
        let cert_der = slot.root.certificate().to_der();
        push_u32(data, cert_der.len() as u32);
        push_bytes(data, cert_der.as_slice());
        data.push(slot.root.trust_level().to_byte());
        push_u64(data, slot.root.added_at());
        let subject_bytes = slot.subject.as_str().as_bytes();
        push_u16(data, subject_bytes.len() as u16);
        push_bytes(data, subject_bytes);
        let ghost mid = data@;
        match self.find_pin(slot.subject.as_str()) {
            Some(k) => {
                data.push(1u8);
                let pin_bytes = self.pins[k].pin.to_bytes();
                push_bytes(data, pin_bytes.as_slice());
                proof { lemma_lookup_at(self@.pins, k as int); }
                assert(self@.pins[k as int].1 == self.pins@[k as int].pin@);
                assert(data@ =~= mid + pin_part(self@.pins, slot.subject@));
            },
            None => {
                data.push(0u8);
                assert(data@ =~= mid + pin_part(self@.pins, slot.subject@));
            },
        }
        assert(data@ =~= old(data)@ + root_record(self@.pins, slot.subject@, slot.root@));
    }

    /// Encodes the store and signs the encoding.
    pub fn export_signed(&self, signing_key: &SigningKey) -> (r: (Vec<u8>, [u8; 64]))
        requires
            self.wf(),
        ensures
            r.0@ == store_bytes(self@),
            r.1@ == spec_sign(signing_key.secret_bytes(), r.0@),
            signature_accepted(derive_public(signing_key.secret_bytes()), r.0@, r.1@),
    {
        let data = self.export();
        let signature = signing_key.sign(data.as_slice());
        (data, signature)
    }

    /// Imports an export after checking its 64-byte signature. On any
    /// failure the store is unchanged.
    pub fn import(&mut self, data: &[u8], signature: &[u8], verifier: &VerifyingKey) -> (r: Result<()>)
        requires
            old(self).wf(),
        ensures
            final(self).wf(),
            signature@.len() != 64 ==> (r matches Err(e) && e is InvalidInput),
            signature@.len() == 64 && !signature_accepted(verifier@, data@, signature@) ==> (r matches Err(e)
                && e is Cryptographic),
            signature@.len() == 64 && signature_accepted(verifier@, data@, signature@) ==> (r is Ok
                <==> parse_store(data@) is Some),
            r is Ok ==> Some(final(self)@) == parse_store(data@),
            r is Err ==> final(self)@ == old(self)@,
    {
        if signature.len() != 64 {
            return Err(invalid_input("Invalid signature length"));
        }
        let mut sig = [0u8; 64];
        let mut i: usize = 0;
        while i < 64
            invariant
                i <= 64,
                signature@.len() == 64,
                forall|j: int| 0 <= j < i ==> sig@[j] == signature@[j],
            decreases 64 - i,
        {
            sig[i] = signature[i];
            i = i + 1;
        }
        assert(sig@ =~= signature@);
        if !verifier.verify(data, &sig) {
            return Err(cryptographic("Trust store signature verification failed"));
        }
        self.parse_import_data(data)
    }

    /// Imports an export without a signature check. On failure the store is
    /// unchanged.
    pub fn import_unsigned(&mut self, data: &[u8]) -> (r: Result<()>)
        requires
            old(self).wf(),
        ensures
            final(self).wf(),
            r is Ok <==> parse_store(data@) is Some,
            r is Ok ==> Some(final(self)@) == parse_store(data@),
            r is Err ==> final(self)@ == old(self)@,
            r matches Err(e) ==> e is InvalidInput && (store_refusal(data@) matches Some(m) ==> (e matches SableError::InvalidInput(msg) && msg@ == m)),
    {
        self.parse_import_data(data)
    }

    /// Parses an export and, when it parses, replaces the store's content.
    fn parse_import_data(&mut self, data: &[u8]) -> (r: Result<()>)
        requires
            old(self).wf(),
        ensures
            final(self).wf(),
            r is Ok <==> parse_store(data@) is Some,
            r is Ok ==> Some(final(self)@) == parse_store(data@),
            r is Err ==> final(self)@ == old(self)@,
            r matches Err(e) ==> e is InvalidInput && (store_refusal(data@) matches Some(m) ==> (e matches SableError::InvalidInput(msg) && msg@ == m)),
    {
        let len = data.len();
        if len < 20 {
            return Err(invalid_input("Trust store data too short"));
        }
        let version = get_u64(data, 0);
        let last_updated = get_u64(data, 8);
        let root_count = get_u32(data, 16);
        let mut pos: usize = 20;
        let mut staged = TrustStore { roots: Vec::new(), pins: Vec::new(), last_updated, version };
        let ghost mut records: Seq<RecordModel> = Seq::empty();
        assert(staged@.roots =~= roots_from(records));
        assert(staged@.pins =~= pins_from(records));
        let mut consistent = true;
        let mut k: u32 = 0;
        while k < root_count
            invariant
                len == data@.len(),
                k <= root_count,
                pos <= len,
                data@.len() >= 20,
                root_count == read32(data@, 16),
                parse_records(data@, 20, k as nat) == Some((records, pos as int)),
                staged@.roots == roots_from(records),
                staged@.pins == pins_from(records),
                staged@.version == version,
                staged@.last_updated == last_updated,
                consistent == records_consistent(records),
                self@ == old(self)@,
                self.wf(),
                version == read64(data@, 0),
                last_updated == read64(data@, 8),
            decreases root_count - k,
        {
            proof { lemma_from_records_invariant(records); }
            match self.parse_one_record(data, pos) {
                Err(e) => {
                    proof {
                        lemma_parse_records_stays_none(data@, 20, (k + 1) as nat, root_count as nat);
                        lemma_refusal_of_first_bad_record(data@, 20, k as nat, root_count as nat);
                    }
                    return Err(e);
                },
                Ok((subject, trusted_root, pin, next)) => {
                    let ghost rec = RecordModel {
                        subject: subject@,
                        root: trusted_root@,
                        pin: match pin {
                            Some(p) => Some(p@),
                            None => None,
                        },
                    };
                    let subject_ok = str_eq(subject.as_str(), trusted_root.certificate().subject());
                    let pin_ok = match &pin {
                        Some(p) => p.matches(trusted_root.certificate()),
                        None => true,
                    };
                    consistent = consistent && subject_ok && pin_ok;
                    match pin {
                        Some(p) => {
                            let pin_subject = String::from_str(subject.as_str());
                            staged.store_pin(pin_subject, p);
                        },
                        None => {
                            staged.drop_pin(subject.as_str());
                        },
                    }
                    staged.store_root(subject, trusted_root);
                    proof {
                        let rs2 = records.push(rec);
                        assert(rs2.drop_last() =~= records);
                        assert(rs2[rs2.len() - 1] == rec);
                        assert forall|i: int| 0 <= i < records.len() implies rs2[i] == records[i] by {}
                        records = rs2;
                    }
                    pos = next;
                },
            }
            k = k + 1;
        }
        proof { lemma_from_records_invariant(records); }
        if !consistent {
            return Err(invalid_input("Trust store record does not match its certificate"));
        }
        *self = staged;
        Ok(())
    }

    /// The record encoded at `pos`: subject, root, optional pin, and the
    /// offset after it.
    fn parse_one_record(&self, data: &[u8], pos: usize) -> (r: Result<(String, TrustedRoot, Option<CertificatePin>, usize)>)
        requires
            pos <= data@.len(),
        ensures
            r is Err <==> parse_record(data@, pos as int) is None,
            r matches Err(e) ==> e is InvalidInput && (record_refusal(data@, pos as int) matches Some(m) ==> (e matches SableError::InvalidInput(msg) && msg@ == m)),
            r matches Ok(t) ==> parse_record(data@, pos as int) == Some(
                (
                    RecordModel {
                        subject: t.0@,
                        root: t.1@,
                        pin: match t.2 {
                            Some(p) => Some(p@),
                            None => None,
                        },
                    },
                    t.3 as int,
                ),
            ),
            r matches Ok(t) ==> t.3 <= data@.len(),
    {
        let len = data.len();
        if len - pos < 4 {
            return Err(invalid_input("Trust store data truncated"));
        }
        let cert_len = get_u32(data, pos) as usize;
        let mut q = pos + 4;
        if cert_len > len - q {
            return Err(invalid_input("Certificate data truncated"));
        }
        let cert_bytes = copy_range(data, q, q + cert_len);
        let cert = match SableCertificate::from_der(cert_bytes.as_slice()) {
            Ok(c) => c,
            Err(e) => { return Err(e); },
        };
        q = q + cert_len;
        if len - q < 1 {
            return Err(invalid_input("Trust level missing"));
        }
        let trust_level = match TrustLevel::from_byte(data[q]) {
            Some(l) => l,
            None => { return Err(invalid_input("Invalid trust level")); },
        };
        q = q + 1;
        if len - q < 8 {
            return Err(invalid_input("Added timestamp missing"));
        }
        let added_at = get_u64(data, q);
        q = q + 8;
        if len - q < 2 {
            return Err(invalid_input("Subject length missing"));
        }
        let subject_len = get_u16(data, q) as usize;
        q = q + 2;
        if subject_len > len - q {
            return Err(invalid_input("Subject data truncated"));
        }
        let subject = match string_from_utf8(copy_range(data, q, q + subject_len)) {
            Some(s) => s,
            None => { return Err(invalid_input("Invalid subject encoding")); },
        };
        q = q + subject_len;
        if len - q < 1 {
            return Err(invalid_input("Pin flag missing"));
        }
        let has_pin = data[q] == 1u8;
        q = q + 1;
        let trusted_root = TrustedRoot::new_with_timestamp(cert, trust_level, added_at);
        if has_pin {
            if 64 > len - q {
                return Err(invalid_input("Pin data truncated"));
            }
            let pin_bytes = copy_range(data, q, q + 64);
            let pin = match CertificatePin::from_bytes(pin_bytes.as_slice()) {
                Ok(p) => p,
                Err(e) => { return Err(e); },
            };
            assert(pin_bytes@.subrange(0, 32) =~= data@.subrange(q as int, q + 32));
            assert(pin_bytes@.subrange(32, 64) =~= data@.subrange(q + 32, q + 64));
            Ok((subject, trusted_root, Some(pin), q + 64))
        } else {
            Ok((subject, trusted_root, None, q))
        }
    }
}

// ---------------------------------------------------------------------------
// Chain validation against the store
// ---------------------------------------------------------------------------

/// Verdict of the store on a certificate chain.
#[derive(Debug, Clone, Copy, PartialEq, Eq, Structural)]
pub enum ChainVerdict {
    /// The chain reaches a stored root of this level.
    Trusted(TrustLevel),
    /// The chain is refused as invalid input.
    Refused,
    /// The root does not match its pin.
    PinMismatch,
}

/// Whether each certificate but the last names the next one's subject as its
/// issuer and is within its validity period at `t`.
pub open spec fn links_ok(chain: Seq<CertificateModel>, t: u64) -> bool {
    forall|i: int| 0 <= i < chain.len() - 1 ==> #[trigger] link_ok(chain, i, t)
}

/// Whether the certificate at position `i` is issued by the next one (by
/// name) and is within its validity period at `t`.
pub open spec fn link_ok(chain: Seq<CertificateModel>, i: int, t: u64) -> bool {
    chain[i].issuer == chain[i + 1].subject && chain[i].not_before <= t <= chain[i].not_after
}

/// The store's verdict on `chain` (leaf first, root last) at time `t` when
/// at least level `min` is required: the root must be stored under its
/// subject at a sufficient level, must pass its pin, and the chain must link.
pub open spec fn store_verdict(s: StoreModel, chain: Seq<CertificateModel>, min: TrustLevel, t: u64) -> ChainVerdict {
    if chain.len() == 0 {
        ChainVerdict::Refused
    } else {
        match lookup(s.roots, chain.last().subject) {
            None => ChainVerdict::Refused,
            Some(root) => if !at_least(root.trust_level, min) {
                ChainVerdict::Refused
            } else if !pin_accepts(s.pins, chain.last()) {
                ChainVerdict::PinMismatch
            } else if links_ok(chain, t) {
                ChainVerdict::Trusted(root.trust_level)
            } else {
                ChainVerdict::Refused
            },
        }
    }
}

/// A chain the store trusts at level `l` is non-empty and ends at a root
/// stored under its subject at level `l`, at least `min`; a pin is stored
/// under that subject holding the tagged hashes of the last certificate's
/// subject and public key; and every certificate but the last names the
/// next as its issuer and is valid at `t`.
pub proof fn lemma_trusted_chain_requirements(s: StoreModel, chain: Seq<CertificateModel>, min: TrustLevel, t: u64)
    ensures
        store_verdict(s, chain, min, t) matches ChainVerdict::Trusted(l) ==> {
            let last = chain[chain.len() - 1];
            &&& chain.len() >= 1
            &&& lookup(s.roots, last.subject) matches Some(root) && root.trust_level == l
            &&& at_least(l, min)
            &&& lookup(s.pins, last.subject) matches Some(p)
                && p.subject_hash == spec_sha256(utf8("SABLE-PIN-SUBJECT-V1"@) + utf8(last.subject))
                && p.public_key_hash == spec_sha256(utf8("SABLE-PIN-PUBKEY-V1"@) + last.public_key)
            &&& forall|i: int| 0 <= i < chain.len() - 1 ==> (#[trigger] chain[i]).issuer == chain[i + 1].subject
                && chain[i].not_before <= t && t <= chain[i].not_after
        },
{
    if store_verdict(s, chain, min, t) is Trusted {
        assert forall|i: int| 0 <= i < chain.len() - 1 implies (#[trigger] chain[i]).issuer == chain[i + 1].subject
            && chain[i].not_before <= t && t <= chain[i].not_after by {
            assert(link_ok(chain, i, t));
        }
    }
}

/// Whether a validation result agrees with a verdict.
pub open spec fn result_matches_verdict(r: Result<TrustLevel>, v: ChainVerdict) -> bool {
    match v {
        ChainVerdict::Trusted(l) => r == Ok::<TrustLevel, SableError>(l),
        ChainVerdict::Refused => r matches Err(e) && e is InvalidInput,
        ChainVerdict::PinMismatch => r matches Err(e) && e is Cryptographic,
    }
}

/// The name of a trust level, as error messages print it.
pub open spec fn level_name(l: TrustLevel) -> Seq<char> {
    match l {
        TrustLevel::Government => "Government"@,
        TrustLevel::Enterprise => "Enterprise"@,
        TrustLevel::Community => "Community"@,
    }
}

/// The name of a trust level, as error messages print it.
fn level_name_exec(l: TrustLevel) -> (s: &'static str)
    ensures
        s@ == level_name(l),
{
    match l {
        TrustLevel::Government => "Government",
        TrustLevel::Enterprise => "Enterprise",
        TrustLevel::Community => "Community",
    }
}

/// The message for the first link of `chain` at or after position `i` that
/// fails at `t`: an issuer that is not the next certificate's subject, or a
/// certificate outside its validity period.
pub open spec fn link_refusal(chain: Seq<CertificateModel>, t: u64, i: int) -> Seq<char>
    decreases chain.len() - i,
{
    if i < 0 || i >= chain.len() - 1 {
        Seq::empty()
    } else if chain[i].issuer != chain[i + 1].subject {
        "Chain broken: "@ + chain[i].subject + " not issued by "@ + chain[i + 1].subject
    } else if !(chain[i].not_before <= t <= chain[i].not_after) {
        "Certificate expired or not yet valid: "@ + chain[i].subject
    } else {
        link_refusal(chain, t, i + 1)
    }
}

/// The message with which the store refuses `chain` at time `t` when level
/// `min` is required.
pub open spec fn chain_refusal(s: StoreModel, chain: Seq<CertificateModel>, min: TrustLevel, t: u64) -> Seq<char> {
    if chain.len() == 0 {
        "Empty certificate chain"@
    } else {
        match lookup(s.roots, chain.last().subject) {
            None => "Root certificate not trusted: "@ + chain.last().subject,
            Some(root) => if !at_least(root.trust_level, min) {
                "Root trust level "@ + level_name(root.trust_level) + " does not meet minimum "@ + level_name(min)
            } else if !pin_accepts(s.pins, chain.last()) {
                "Root certificate pin verification failed"@
            } else {
                link_refusal(chain, t, 0)
            },
        }
    }
}

/// The text an error carries.
pub open spec fn error_text(e: SableError) -> Seq<char> {
    match e {
        SableError::InvalidInput(m) => m@,
        SableError::Cryptographic(m) => m@,
        SableError::CryptoError(m) => m@,
        SableError::RandomGeneration => Seq::empty(),
    }
}

impl TrustStore {
    /// Validates a chain (leaf first, root last) at the current time,
    /// requiring at least `min_trust_level`; returns the root's level.
    pub fn validate_chain(&self, chain: &[SableCertificate], min_trust_level: TrustLevel) -> (r: Result<TrustLevel>)
        requires
            self.wf(),
        ensures
            exists|t: u64|
                result_matches_verdict(
                    r,
                    store_verdict(self@, crate::attestation::chain::models(chain@), min_trust_level, t),
                ),
    {
        self.validate_chain_at(chain, min_trust_level, now_or_zero())
    }

    /// Validates a chain (leaf first, root last) at time `now`, requiring at
    /// least `min_trust_level`; returns the root's level.
    pub fn validate_chain_at(&self, chain: &[SableCertificate], min_trust_level: TrustLevel, now: u64) -> (r: Result<TrustLevel>)
        requires
            self.wf(),
        ensures
            result_matches_verdict(
                r,
                store_verdict(self@, crate::attestation::chain::models(chain@), min_trust_level, now),
            ),
            r matches Err(e) ==> error_text(e) == chain_refusal(
                self@,
                crate::attestation::chain::models(chain@),
                min_trust_level,
                now,
            ),
    {
        let ghost cs = crate::attestation::chain::models(chain@);
        let n = chain.len();
        if n == 0 {
            return Err(invalid_input("Empty certificate chain"));
        }
        let root_cert = &chain[n - 1];
        assert(cs.last() == root_cert@);
        let idx = match self.find_root(root_cert.subject()) {
            Some(i) => i,
            None => {
                let mut msg = String::from_str("Root certificate not trusted: ");
                msg.append(root_cert.subject());
                return Err(SableError::InvalidInput(msg));
            },
        };
        assert(self@.roots[idx as int].1 == self.roots@[idx as int].root@);
        let level = self.roots[idx].root.trust_level();
        if !level.is_at_least(min_trust_level) {
            let mut msg = String::from_str("Root trust level ");
            msg.append(level_name_exec(level));
            msg.append(" does not meet minimum ");
            msg.append(level_name_exec(min_trust_level));
            return Err(SableError::InvalidInput(msg));
        }
        if !self.verify_pin(root_cert) {
            return Err(cryptographic("Root certificate pin verification failed"));
        }
        match link_failure(chain, now) {
            Some(msg) => { return Err(SableError::InvalidInput(msg)); },
            None => {},
        }
        Ok(level)
    }
}

/// The message for the first link that fails at `now`, or `None` when each
/// certificate but the last is issued by the next one (by name) and is
/// within its validity period at `now`.
fn link_failure(chain: &[SableCertificate], now: u64) -> (r: Option<String>)
    ensures
        r is None <==> links_ok(crate::attestation::chain::models(chain@), now),
        r matches Some(m) ==> m@ == link_refusal(crate::attestation::chain::models(chain@), now, 0),
{
    let ghost cs = crate::attestation::chain::models(chain@);
    let n = chain.len();
    if n == 0 {
        return None;
    }
    let mut i: usize = 0;
    while i < n - 1
        invariant
            n == chain@.len(),
            cs == crate::attestation::chain::models(chain@),
            cs.len() == n,
            n > 0,
            i <= n - 1,
            forall|j: int| 0 <= j < i ==> #[trigger] link_ok(cs, j, now),
            link_refusal(cs, now, 0) == link_refusal(cs, now, i as int),
        decreases n - 1 - i,
    {
        let cert = &chain[i];
        let issuer_cert = &chain[i + 1];
        assert(cs[i as int] == cert@ && cs[i + 1] == issuer_cert@);
        if !str_eq(cert.issuer(), issuer_cert.subject()) {
            assert(!link_ok(cs, i as int, now));
            let mut msg = String::from_str("Chain broken: ");
            msg.append(cert.subject());
            msg.append(" not issued by ");
            msg.append(issuer_cert.subject());
            return Some(msg);
        }
        if !cert.is_valid_at(now) {
            assert(!link_ok(cs, i as int, now));
            let mut msg = String::from_str("Certificate expired or not yet valid: ");
            msg.append(cert.subject());
            return Some(msg);
        }
        assert(link_ok(cs, i as int, now));
        i = i + 1;
    }
    None
}

// ---------------------------------------------------------------------------
// Export then import gives back the store
// ---------------------------------------------------------------------------

/// Whether a root's certificate and subject name can be exported without
/// truncating a length field, and re-parsed.
pub open spec fn record_encodable(subject: Seq<char>, r: RootModel) -> bool {
    &&& r.certificate.version == 3
    &&& crate::attestation::x509::certificate_encodable(r.certificate)
    &&& certificate_der(r.certificate).len() >= 150
    &&& utf8(subject).len() <= 65535
}

/// Whether a store's roots can be exported and re-imported without loss:
/// at most 2^32 - 1 roots, each encodable.
pub open spec fn roots_encodable(s: StoreModel) -> bool {
    &&& s.roots.len() <= u32::MAX
    &&& forall|i: int| 0 <= i < s.roots.len() ==> record_encodable(#[trigger] s.roots[i].0, s.roots[i].1)
}

/// Whether every pin's hashes are 32 bytes long, as those of a store are.
pub open spec fn pin_hashes_full(s: StoreModel) -> bool {
    forall|i: int|
        0 <= i < s.pins.len() ==> (#[trigger] s.pins[i]).1.subject_hash.len() == 32
            && s.pins[i].1.public_key_hash.len() == 32
}

/// Whether a store model can be exported and re-imported without loss:
/// encodable roots and 32-byte pin hashes.
pub open spec fn store_encodable(s: StoreModel) -> bool {
    roots_encodable(s) && pin_hashes_full(s)
}

/// The pins of a store hold 32-byte hashes.
pub proof fn lemma_store_pin_hashes(s: &TrustStore)
    ensures
        pin_hashes_full(s@),
{
    assert forall|i: int| 0 <= i < s@.pins.len() implies (#[trigger] s@.pins[i]).1.subject_hash.len() == 32
        && s@.pins[i].1.public_key_hash.len() == 32 by {
        assert(s@.pins[i] == (s.pins@[i].subject@, s.pins@[i].pin@));
    }
}

/// The records an export of roots `es` carries.
pub open spec fn export_records(pins: Seq<(Seq<char>, PinModel)>, es: Seq<(Seq<char>, RootModel)>) -> Seq<RecordModel> {
    es.map_values(|e: (Seq<char>, RootModel)| RecordModel { subject: e.0, root: e.1, pin: lookup(pins, e.0) })
}

#[verifier::spinoff_prover]
#[verifier::rlimit(100)]
proof fn lemma_record_roundtrip(
    pins: Seq<(Seq<char>, PinModel)>,
    subject: Seq<char>,
    r: RootModel,
    a: Seq<u8>,
    b: Seq<u8>,
)
    requires
        record_encodable(subject, r),
        r.description is None,
        forall|i: int|
            0 <= i < pins.len() ==> (#[trigger] pins[i]).1.subject_hash.len() == 32
                && pins[i].1.public_key_hash.len() == 32,
    ensures
        parse_record(a + root_record(pins, subject, r) + b, a.len() as int) == Some(
            (
                RecordModel { subject, root: r, pin: lookup(pins, subject) },
                a.len() as int + root_record(pins, subject, r).len() as int,
            ),
        ),
{
    let d = a + root_record(pins, subject, r) + b;
    let p = a.len() as int;
    let der = certificate_der(r.certificate);
    let cl = der.len() as int;
    let sb = utf8(subject);
    let sl = sb.len() as int;
    let q1 = p + 4 + cl;
    let q2 = q1 + 11 + sl;
    lemma_certificate_roundtrip(r.certificate);
    lemma_be32_roundtrip(cl as u32);
    lemma_be64_roundtrip(r.added_at);
    lemma_be16_roundtrip(sl as u16);
    lemma_level_roundtrip(r.trust_level);
    vstd::utf8::encode_utf8_valid_utf8(subject);
    vstd::utf8::encode_utf8_decode_utf8(subject);
    assert(d.subrange(p, p + 4) =~= be32(cl as u32));
    assert(read32(d, p) == read32(be32(cl as u32), 0));
    assert(d.subrange(p + 4, q1) =~= der);
    assert(d[q1] == level_code(r.trust_level));
    assert(d.subrange(q1 + 1, q1 + 9) =~= be64(r.added_at));
    assert(read64(d, q1 + 1) == read64(be64(r.added_at), 0));
    assert(d.subrange(q1 + 9, q1 + 11) =~= be16(sl as u16));
    assert(read16(d, q1 + 9) == read16(be16(sl as u16), 0));
    assert(d.subrange(q1 + 11, q2) =~= sb);
    match lookup(pins, subject) {
        Some(pin) => {
            let k = key_index(pins, subject);
            assert(pins[k].1 == pin);
            assert(pins[k].1.subject_hash.len() == 32);
            assert(d[q2] == 1);
            assert(d.subrange(q2 + 1, q2 + 33) =~= pin.subject_hash);
            assert(d.subrange(q2 + 33, q2 + 65) =~= pin.public_key_hash);
        },
        None => {
            assert(d[q2] == 0);
        },
    }
}

#[verifier::spinoff_prover]
#[verifier::rlimit(80)]
proof fn lemma_records_roundtrip(
    pins: Seq<(Seq<char>, PinModel)>,
    es: Seq<(Seq<char>, RootModel)>,
    a: Seq<u8>,
    b: Seq<u8>,
)
    requires
        forall|i: int| 0 <= i < es.len() ==> record_encodable(#[trigger] es[i].0, es[i].1),
        forall|i: int| 0 <= i < es.len() ==> (#[trigger] es[i]).1.description is None,
        forall|i: int|
            0 <= i < pins.len() ==> (#[trigger] pins[i]).1.subject_hash.len() == 32
                && pins[i].1.public_key_hash.len() == 32,
    ensures
        parse_records(a + records_bytes(pins, es) + b, a.len() as int, es.len()) == Some(
            (export_records(pins, es), a.len() as int + records_bytes(pins, es).len() as int),
        ),
    decreases es.len(),
{
    if es.len() == 0 {
        assert(export_records(pins, es) =~= Seq::<RecordModel>::empty());
    } else {
        let prev = es.drop_last();
        let e = es.last();
        let rec = root_record(pins, e.0, e.1);
        assert(record_encodable(es[es.len() - 1].0, es[es.len() - 1].1));
        assert forall|i: int| 0 <= i < prev.len() implies record_encodable(#[trigger] prev[i].0, prev[i].1) by {
            assert(prev[i] == es[i]);
        }
        assert forall|i: int| 0 <= i < prev.len() implies (#[trigger] prev[i]).1.description is None by {
            assert(prev[i] == es[i]);
        }
        assert(es[es.len() - 1].1.description is None);
        let d = a + records_bytes(pins, es) + b;
        assert(d =~= a + records_bytes(pins, prev) + (rec + b));
        lemma_records_roundtrip(pins, prev, a, rec + b);
        let p = a.len() as int + records_bytes(pins, prev).len() as int;
        assert(d =~= (a + records_bytes(pins, prev)) + rec + b);
        lemma_record_roundtrip(pins, e.0, e.1, a + records_bytes(pins, prev), b);
        assert(export_records(pins, prev).push(
            RecordModel { subject: e.0, root: e.1, pin: lookup(pins, e.0) },
        ) =~= export_records(pins, es));
    }
}

proof fn lemma_roots_from_export(pins: Seq<(Seq<char>, PinModel)>, es: Seq<(Seq<char>, RootModel)>)
    requires
        keys_unique(es),
    ensures
        roots_from(export_records(pins, es)) == es,
        forall|k: Seq<char>| #[trigger]
            lookup(pins_from(export_records(pins, es)), k) == if has_key(es, k) {
                lookup(pins, k)
            } else {
                None
            },
    decreases es.len(),
{
    let rs = export_records(pins, es);
    if es.len() == 0 {
        assert forall|k: Seq<char>| #[trigger]
            lookup(pins_from(rs), k) == if has_key(es, k) {
                lookup(pins, k)
            } else {
                None
            } by {
            assert(pins_from(rs) =~= Seq::<(Seq<char>, PinModel)>::empty());
        }
    } else {
        let prev = es.drop_last();
        let e = es.last();
        assert(keys_unique(prev)) by {
            assert forall|i: int, j: int|
                0 <= i < prev.len() && 0 <= j < prev.len() && i != j implies #[trigger] prev[i].0
                != #[trigger] prev[j].0 by {
                assert(prev[i] == es[i] && prev[j] == es[j]);
            }
        }
        lemma_roots_from_export(pins, prev);
        assert(rs.drop_last() =~= export_records(pins, prev));
        assert(rs.last() == RecordModel { subject: e.0, root: e.1, pin: lookup(pins, e.0) });
        assert(!has_key(prev, e.0)) by {
            if has_key(prev, e.0) {
                let j = key_index(prev, e.0);
                assert(es[j].0 == es[es.len() - 1].0);
            }
        }
        assert(upsert(prev, e.0, e.1) =~= es);
        lemma_from_records_invariant(export_records(pins, prev));
        assert forall|k: Seq<char>| #[trigger]
            lookup(pins_from(rs), k) == if has_key(es, k) {
                lookup(pins, k)
            } else {
                None
            } by {
            let prs = pins_from(export_records(pins, prev));
            match lookup(pins, e.0) {
                Some(p) => { lemma_upsert(prs, e.0, p); },
                None => { lemma_remove_key(prs, e.0); },
            }
            if k == e.0 {
                assert(es[es.len() - 1].0 == k);
                assert(has_key(es, k));
                if lookup(pins, e.0) is None {
                    assert(lookup(prs, k) is None);
                }
            } else {
                assert(has_key(es, k) == has_key(prev, k)) by {
                    if has_key(es, k) {
                        let j = key_index(es, k);
                        assert(j != es.len() - 1);
                        assert(prev[j] == es[j]);
                    }
                    if has_key(prev, k) {
                        let j = key_index(prev, k);
                        assert(es[j] == prev[j]);
                    }
                }
            }
        }
    }
}

/// The records of a well-formed store's export are consistent.
proof fn lemma_export_records_consistent(s: StoreModel)
    requires
        store_invariant(s),
    ensures
        records_consistent(export_records(s.pins, s.roots)),
{
    let rs = export_records(s.pins, s.roots);
    assert forall|i: int| 0 <= i < rs.len() implies record_consistent(#[trigger] rs[i]) by {
        lemma_lookup_at(s.roots, i);
        let k = s.roots[i].0;
        assert(has_key(s.roots, k));
        assert(rs[i] == RecordModel { subject: k, root: s.roots[i].1, pin: lookup(s.pins, k) });
        if has_key(s.pins, k) {
            assert(pin_matches(lookup(s.pins, k).unwrap(), lookup(s.roots, k).unwrap().certificate));
        }
    }
}

/// Exporting a well-formed store and importing the export gives back a
/// well-formed store with the same roots, the same pin for every subject
/// (so the same pin verdict on every certificate), and the same version and
/// update time, provided every root can be encoded without truncation.
pub proof fn lemma_export_import(s: StoreModel)
    requires
        store_invariant(s),
        store_encodable(s),
    ensures
        parse_store(store_bytes(s)) matches Some(t) && t.roots == s.roots && t.version == s.version
            && t.last_updated == s.last_updated && (forall|k: Seq<char>|
            #[trigger] lookup(t.pins, k) == lookup(s.pins, k)) && (forall|c: CertificateModel|
            #[trigger] pin_accepts(t.pins, c) == pin_accepts(s.pins, c)) && store_invariant(t),
{
    let d = store_bytes(s);
    assert forall|i: int| 0 <= i < s.roots.len() implies (#[trigger] s.roots[i]).1.description is None by {
        lemma_lookup_at(s.roots, i);
        assert(has_key(s.roots, s.roots[i].0));
    }
    let head = be64(s.version) + be64(s.last_updated) + be32(s.roots.len() as u32);
    lemma_be64_roundtrip(s.version);
    lemma_be64_roundtrip(s.last_updated);
    lemma_be32_roundtrip(s.roots.len() as u32);
    assert(d.subrange(0, 8) =~= be64(s.version));
    assert(read64(d, 0) == read64(be64(s.version), 0));
    assert(d.subrange(8, 16) =~= be64(s.last_updated));
    assert(read64(d, 8) == read64(be64(s.last_updated), 0));
    assert(d.subrange(16, 20) =~= be32(s.roots.len() as u32));
    assert(read32(d, 16) == read32(be32(s.roots.len() as u32), 0));
    assert(d =~= head + records_bytes(s.pins, s.roots) + Seq::<u8>::empty());
    lemma_records_roundtrip(s.pins, s.roots, head, Seq::<u8>::empty());
    lemma_roots_from_export(s.pins, s.roots);
    lemma_export_records_consistent(s);
    let t = parse_store(d).unwrap();
    assert forall|k: Seq<char>| #[trigger] lookup(t.pins, k) == lookup(s.pins, k) by {
        if !has_key(s.roots, k) {
            if has_key(s.pins, k) {
                assert(has_key(s.roots, k));
            }
        }
    }
    assert forall|c: CertificateModel| #[trigger] pin_accepts(t.pins, c) == pin_accepts(s.pins, c) by {
        assert(lookup(t.pins, c.subject) == lookup(s.pins, c.subject));
    }
    lemma_from_records_invariant(export_records(s.pins, s.roots));
}

/// Exporting a well-formed store whose roots are encodable and importing
/// the bytes gives back its roots, version, update time and pins, so every
/// certificate's pin check is unchanged, in a well-formed store.
pub proof fn lemma_store_export_import(s: &TrustStore)
    requires
        s.wf(),
        roots_encodable(s@),
    ensures
        parse_store(store_bytes(s@)) matches Some(t) && t.roots == s@.roots && t.version == s@.version
            && t.last_updated == s@.last_updated && (forall|k: Seq<char>|
            #[trigger] lookup(t.pins, k) == lookup(s@.pins, k)) && (forall|c: CertificateModel|
            #[trigger] pin_accepts(t.pins, c) == pin_accepts(s@.pins, c)) && store_invariant(t),
{
    lemma_store_pin_hashes(s);
    lemma_export_import(s@);
}

/// After a root is added, its subject is trusted at the level it was added
/// with, the certificate passes the pin stored for it, and every other
/// subject is looked up as before.
pub proof fn lemma_added_root_is_trusted(
    roots: Seq<(Seq<char>, RootModel)>,
    pins: Seq<(Seq<char>, PinModel)>,
    cert: CertificateModel,
    level: TrustLevel,
    added_at: u64,
)
    requires
        keys_unique(roots),
        keys_unique(pins),
    ensures
        ({
            let root = RootModel { certificate: cert, trust_level: level, added_at, description: None };
            let new_roots = upsert(roots, cert.subject, root);
            let new_pins = upsert(pins, cert.subject, pin_of(cert));
            &&& has_key(new_roots, cert.subject)
            &&& lookup(new_roots, cert.subject) == Some(root)
            &&& pin_accepts(new_pins, cert)
            &&& forall|k: Seq<char>| k != cert.subject ==> #[trigger] lookup(new_roots, k) == lookup(roots, k)
        }),
{
    let root = RootModel { certificate: cert, trust_level: level, added_at, description: None };
    lemma_upsert(roots, cert.subject, root);
    lemma_upsert(pins, cert.subject, pin_of(cert));
    assert(lookup(upsert(roots, cert.subject, root), cert.subject) == Some(root));
    assert(lookup(upsert(pins, cert.subject, pin_of(cert)), cert.subject) == Some(pin_of(cert)));
}

/// After a root is removed, its subject is no longer trusted, no pin is
/// stored for it, and every other subject is looked up as before.
pub proof fn lemma_removed_root_is_untrusted(
    roots: Seq<(Seq<char>, RootModel)>,
    pins: Seq<(Seq<char>, PinModel)>,
    subject: Seq<char>,
)
    requires
        keys_unique(roots),
        keys_unique(pins),
    ensures
        !has_key(remove_key(roots, subject), subject),
        lookup(remove_key(pins, subject), subject) is None,
        forall|k: Seq<char>| k != subject ==> #[trigger] lookup(remove_key(roots, subject), k) == lookup(roots, k),
{
    lemma_remove_key(roots, subject);
    lemma_remove_key(pins, subject);
    assert(lookup(remove_key(roots, subject), subject) is None);
}

} // verus!
