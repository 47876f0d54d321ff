//! Certificate chain validation with OCSP and CRL revocation checking.

use vstd::prelude::*;
use vstd::string::StringExecFns;
use vstd::utf8::{decode_utf8, valid_utf8};
use crate::codec::{
    str_eq, be16, be32, be64, bytes_eq, copy_range, get_u16, get_u32, get_u64, lemma_be16_roundtrip,
    lemma_be32_roundtrip, lemma_be64_roundtrip, push_bytes, push_u16, push_u32, push_u64, read16,
    read32, read64,
};
use crate::error::{invalid_input, Result, SableError};
use crate::platform::{sha256, spec_sha256, string_from_utf8, unix_time_now};
use crate::attestation::x509::{
    certificate_der, certificate_signature_ok, signature_accepted, tbs_bytes, fresh_issue_error, freshly_issued, utf8, CertificateModel,
    ProofType, DEFAULT_VALIDITY_SECONDS,
    SableCertificate, SigningKey, VerifyingKey,
};

verus! {

// ---------------------------------------------------------------------------
// Validation result
// ---------------------------------------------------------------------------

/// Outcome of validating a certificate chain.
#[derive(Debug, Clone, Copy, PartialEq, Eq, Structural)]
pub enum ValidationResult {
    /// The chain is valid.
    Valid,
    /// A certificate in the chain has expired.
    Expired,
    /// A certificate in the chain is not yet valid.
    NotYetValid,
    /// Signature verification failed for a certificate in the chain.
    InvalidSignature,
    /// A certificate was revoked according to an OCSP response.
    RevokedOcsp,
    /// A certificate was found in a CRL.
    RevokedCrl,
    /// The issuer of a certificate could not be found.
    UnknownIssuer,
    /// The chain exceeds the maximum allowed length.
    ChainTooLong,
    /// The chain is empty.
    EmptyChain,
    /// The chain does not reach a trusted root.
    UntrustedRoot,
}

impl ValidationResult {
    /// Whether the result says the chain is valid.
    pub fn is_valid(&self) -> (b: bool)
        ensures
            b == (*self == ValidationResult::Valid),
    {
        match self {
            ValidationResult::Valid => true,
            _ => false,
        }
    }

    /// A human-readable description of the result.
    pub fn description(&self) -> (d: &'static str)
        ensures
            d@ == match *self {
                ValidationResult::Valid => "Certificate chain is valid"@,
                ValidationResult::Expired => "A certificate in the chain has expired"@,
                ValidationResult::NotYetValid => "A certificate in the chain is not yet valid"@,
                ValidationResult::InvalidSignature => "Signature verification failed"@,
                ValidationResult::RevokedOcsp => "A certificate was revoked (OCSP)"@,
                ValidationResult::RevokedCrl => "A certificate was revoked (CRL)"@,
                ValidationResult::UnknownIssuer => "Unknown certificate issuer"@,
                ValidationResult::ChainTooLong => "Certificate chain exceeds maximum length"@,
                ValidationResult::EmptyChain => "Certificate chain is empty"@,
                ValidationResult::UntrustedRoot => "Certificate does not chain to a trusted root"@,
            },
    {
        match self {
            ValidationResult::Valid => "Certificate chain is valid",
            ValidationResult::Expired => "A certificate in the chain has expired",
            ValidationResult::NotYetValid => "A certificate in the chain is not yet valid",
            ValidationResult::InvalidSignature => "Signature verification failed",
            ValidationResult::RevokedOcsp => "A certificate was revoked (OCSP)",
            ValidationResult::RevokedCrl => "A certificate was revoked (CRL)",
            ValidationResult::UnknownIssuer => "Unknown certificate issuer",
            ValidationResult::ChainTooLong => "Certificate chain exceeds maximum length",
            ValidationResult::EmptyChain => "Certificate chain is empty",
            ValidationResult::UntrustedRoot => "Certificate does not chain to a trusted root",
        }
    }
}

// ---------------------------------------------------------------------------
// OCSP responses
// ---------------------------------------------------------------------------

/// OCSP status of a certificate.
#[derive(Debug, Clone, Copy, PartialEq, Eq, Structural)]
pub enum OcspStatus {
    /// The certificate is good.
    Good,
    /// The certificate has been revoked.
    Revoked,
    /// The responder does not know the certificate.
    Unknown,
}

/// Abstract content of an OCSP response.
pub struct OcspModel {
    pub serial: Seq<u8>,
    pub status: OcspStatus,
    pub produced_at: u64,
    pub next_update: u64,
}

/// A cached OCSP response for one serial number.
#[derive(Debug, Clone)]
pub struct OcspResponse {
    /// Serial number of the certificate this response is for.
    pub serial_number: Vec<u8>,
    /// Status of the certificate.
    pub status: OcspStatus,
    /// Time the response was produced (Unix timestamp).
    pub produced_at: u64,
    /// Time until which the response is valid (Unix timestamp).
    pub next_update: u64,
}

impl View for OcspResponse {
    type V = OcspModel;

    open spec fn view(&self) -> OcspModel {
        OcspModel {
            serial: self.serial_number@,
            status: self.status,
            produced_at: self.produced_at,
            next_update: self.next_update,
        }
    }
}

/// Whether an OCSP response is current at `t`, bounds included.
pub open spec fn ocsp_current(r: OcspModel, t: u64) -> bool {
    r.produced_at <= t <= r.next_update
}

impl OcspResponse {
    /// Creates a response valid for `validity_seconds` after `produced_at`.
    pub fn new(serial_number: Vec<u8>, status: OcspStatus, produced_at: u64, validity_seconds: u64) -> (r: Self)
        requires
            produced_at + validity_seconds <= u64::MAX,
        ensures
            r@ == (OcspModel {
                serial: serial_number@,
                status,
                produced_at,
                next_update: (produced_at + validity_seconds) as u64,
            }),
    {
        OcspResponse {
            serial_number,
            status,
            produced_at,
            next_update: produced_at + validity_seconds,
        }
    }

    /// Whether the response is current at `timestamp`.
    pub fn is_valid_at(&self, timestamp: u64) -> (b: bool)
        ensures
            b == ocsp_current(self@, timestamp),
    {
        timestamp >= self.produced_at && timestamp <= self.next_update
    }
}

// ---------------------------------------------------------------------------
// Revocation reasons and CRL entries
// ---------------------------------------------------------------------------

/// Reason for certificate revocation.
#[derive(Debug, Clone, Copy, PartialEq, Eq, Structural)]
pub enum RevocationReason {
    /// Unspecified reason.
    Unspecified,
    /// The key has been compromised.
    KeyCompromise,
    /// The CA has been compromised.
    CaCompromise,
    /// The affiliation changed.
    AffiliationChanged,
    /// Superseded by a new certificate.
    Superseded,
    /// No longer needed.
    CessationOfOperation,
    /// On hold.
    CertificateHold,
    /// Removed from the CRL.
    RemoveFromCrl,
    /// Privilege withdrawn.
    PrivilegeWithdrawn,
    /// Attribute authority compromised.
    AaCompromise,
}

/// The byte that encodes a revocation reason.
pub open spec fn reason_code(r: RevocationReason) -> u8 {
    match r {
        RevocationReason::Unspecified => 0,
        RevocationReason::KeyCompromise => 1,
        RevocationReason::CaCompromise => 2,
        RevocationReason::AffiliationChanged => 3,
        RevocationReason::Superseded => 4,
        RevocationReason::CessationOfOperation => 5,
        RevocationReason::CertificateHold => 6,
        RevocationReason::RemoveFromCrl => 8,
        RevocationReason::PrivilegeWithdrawn => 9,
        RevocationReason::AaCompromise => 10,
    }
}

/// The revocation reason a byte denotes, if any.
pub open spec fn reason_of(b: u8) -> Option<RevocationReason> {
    if b == 0 {
        Some(RevocationReason::Unspecified)
    } else if b == 1 {
        Some(RevocationReason::KeyCompromise)
    } else if b == 2 {
        Some(RevocationReason::CaCompromise)
    } else if b == 3 {
        Some(RevocationReason::AffiliationChanged)
    } else if b == 4 {
        Some(RevocationReason::Superseded)
    } else if b == 5 {
        Some(RevocationReason::CessationOfOperation)
    } else if b == 6 {
        Some(RevocationReason::CertificateHold)
    } else if b == 8 {
        Some(RevocationReason::RemoveFromCrl)
    } else if b == 9 {
        Some(RevocationReason::PrivilegeWithdrawn)
    } else if b == 10 {
        Some(RevocationReason::AaCompromise)
    } else {
        None
    }
}

impl RevocationReason {
    /// Converts from the byte representation.
    pub fn from_byte(b: u8) -> (r: Option<Self>)
        ensures
            r == reason_of(b),
    {
        match b {
            0 => Some(RevocationReason::Unspecified),
            1 => Some(RevocationReason::KeyCompromise),
            2 => Some(RevocationReason::CaCompromise),
            3 => Some(RevocationReason::AffiliationChanged),
            4 => Some(RevocationReason::Superseded),
            5 => Some(RevocationReason::CessationOfOperation),
            6 => Some(RevocationReason::CertificateHold),
            8 => Some(RevocationReason::RemoveFromCrl),
            9 => Some(RevocationReason::PrivilegeWithdrawn),
            10 => Some(RevocationReason::AaCompromise),
            _ => None,
        }
    }

    /// Converts to the byte representation.
    pub fn to_byte(self) -> (b: u8)
        ensures
            b == reason_code(self),
    {
        match self {
            RevocationReason::Unspecified => 0,
            RevocationReason::KeyCompromise => 1,
            RevocationReason::CaCompromise => 2,
            RevocationReason::AffiliationChanged => 3,
            RevocationReason::Superseded => 4,
            RevocationReason::CessationOfOperation => 5,
            RevocationReason::CertificateHold => 6,
            RevocationReason::RemoveFromCrl => 8,
            RevocationReason::PrivilegeWithdrawn => 9,
            RevocationReason::AaCompromise => 10,
        }
    }
}

/// Decoding a revocation reason's byte gives back that reason.
pub proof fn lemma_reason_roundtrip(r: RevocationReason)
    ensures
        reason_of(reason_code(r)) == Some(r),
{
}

/// Abstract content of a CRL entry.
pub struct EntryModel {
    pub serial: Seq<u8>,
    pub revocation_date: u64,
    pub reason: Option<RevocationReason>,
}

/// Entry in a certificate revocation list.
#[derive(Debug, Clone)]
pub struct CrlEntry {
    /// Serial number of the revoked certificate.
    pub serial_number: Vec<u8>,
    /// Revocation date (Unix timestamp).
    pub revocation_date: u64,
    /// Reason for revocation, if given.
    pub reason: Option<RevocationReason>,
}

impl View for CrlEntry {
    type V = EntryModel;

    open spec fn view(&self) -> EntryModel {
        EntryModel {
            serial: self.serial_number@,
            revocation_date: self.revocation_date,
            reason: self.reason,
        }
    }
}

// ---------------------------------------------------------------------------
// Certificate revocation lists
// ---------------------------------------------------------------------------

/// Abstract content of a CRL.
pub struct CrlModel {
    pub issuer: Seq<char>,
    pub this_update: u64,
    pub next_update: u64,
    pub entries: Seq<EntryModel>,
}

/// Certificate revocation list issued by one CA.
#[derive(Debug, Clone)]
pub struct Crl {
    /// Issuer distinguished name.
    pub issuer: String,
    /// Time this CRL was issued (Unix timestamp).
    pub this_update: u64,
    /// Time the next CRL will be issued (Unix timestamp).
    pub next_update: u64,
    /// Revoked certificates.
    pub entries: Vec<CrlEntry>,
}

impl View for Crl {
    type V = CrlModel;

    open spec fn view(&self) -> CrlModel {
        CrlModel {
            issuer: self.issuer@,
            this_update: self.this_update,
            next_update: self.next_update,
            entries: self.entries@.map_values(|e: CrlEntry| e@),
        }
    }
}

/// Whether a CRL lists the serial number.
pub open spec fn crl_lists(c: CrlModel, serial: Seq<u8>) -> bool {
    exists|i: int| 0 <= i < c.entries.len() && #[trigger] c.entries[i].serial == serial
}

/// Whether a CRL is current at `t`, bounds included.
pub open spec fn crl_current(c: CrlModel, t: u64) -> bool {
    c.this_update <= t <= c.next_update
}

/// The byte that encodes an optional reason: 255 for none.
pub open spec fn reason_field(r: Option<RevocationReason>) -> u8 {
    match r {
        Some(x) => reason_code(x),
        None => 255,
    }
}

/// The encoding of one entry: serial length byte, serial, date, reason byte.
pub open spec fn entry_bytes(e: EntryModel) -> Seq<u8> {
    seq![e.serial.len() as u8] + e.serial + be64(e.revocation_date) + seq![reason_field(e.reason)]
}

/// The encodings of the entries, in order.
pub open spec fn entries_bytes(es: Seq<EntryModel>) -> Seq<u8>
    decreases es.len(),
{
    if es.len() == 0 {
        Seq::empty()
    } else {
        entries_bytes(es.drop_last()) + entry_bytes(es.last())
    }
}

/// The encoding of a CRL: issuer with a 16-bit length, the two timestamps,
/// the entry count as 32 bits, then the entries (lengths truncated to the
/// field widths).
pub open spec fn crl_bytes(c: CrlModel) -> Seq<u8> {
    be16(utf8(c.issuer).len() as u16) + utf8(c.issuer) + be64(c.this_update) + be64(c.next_update)
        + be32(c.entries.len() as u32) + entries_bytes(c.entries)
}

/// The reason a stored reason byte denotes: 255 and unknown bytes denote none.
pub open spec fn reason_from_field(b: u8) -> Option<RevocationReason> {
    if b == 255 {
        None
    } else {
        reason_of(b)
    }
}

/// The first `count` entries encoded from offset `pos`, and the offset after
/// them; `None` when one does not fit in `d`.
pub open spec fn parse_entries(d: Seq<u8>, pos: int, count: nat) -> Option<(Seq<EntryModel>, int)>
    decreases count,
{
    if count == 0 {
        Some((Seq::empty(), pos))
    } else {
        match parse_entries(d, pos, (count - 1) as nat) {
            None => None,
            Some(prev) => {
                let p = prev.1;
                if p + 1 > d.len() {
                    None
                } else {
                    let sl = d[p] as int;
                    if p + 1 + sl + 9 > d.len() {
                        None
                    } else {
                        Some(
                            (
                                prev.0.push(
                                    EntryModel {
                                        serial: d.subrange(p + 1, p + 1 + sl),
                                        revocation_date: read64(d, p + 1 + sl),
                                        reason: reason_from_field(d[p + 1 + sl + 8]),
                                    },
                                ),
                                p + 1 + sl + 9,
                            ),
                        )
                    }
                }
            },
        }
    }
}

/// The CRL a byte string encodes, if any; bytes after the last entry are
/// ignored.
pub open spec fn parse_crl(d: Seq<u8>) -> Option<CrlModel> {
    let il = read16(d, 0) as int;
    if d.len() < 22 || 2 + il > d.len() || !valid_utf8(d.subrange(2, 2 + il)) || 2 + il + 16
        > d.len() || 2 + il + 20 > d.len() {
        None
    } else {
        match parse_entries(d, 2 + il + 20, read32(d, 2 + il + 16) as nat) {
            None => None,
            Some(es) => Some(
                CrlModel {
                    issuer: decode_utf8(d.subrange(2, 2 + il)),
                    this_update: read64(d, 2 + il),
                    next_update: read64(d, 2 + il + 8),
                    entries: es.0,
                },
            ),
        }
    }
}

/// Why bytes that do not encode a CRL are refused: too short, an issuer
/// length past the end, an issuer that is not UTF-8, timestamps or entry
/// count cut off, or an entry cut off.
pub open spec fn crl_refusal(d: Seq<u8>) -> Seq<char> {
    let il = read16(d, 0) as int;
    if d.len() < 22 {
        "CRL too short"@
    } else if 2 + il > d.len() {
        "Invalid CRL issuer length"@
    } else if !valid_utf8(d.subrange(2, 2 + il)) {
        "Invalid CRL issuer encoding"@
    } else if 2 + il + 20 > d.len() {
        "CRL truncated"@
    } else {
        "CRL entry truncated"@
    }
}

/// Once the entries run out of room, asking for more entries fails too.
proof fn lemma_parse_entries_stays_none(d: Seq<u8>, pos: int, n: nat, m: nat)
    requires
        parse_entries(d, pos, n) is None,
        n <= m,
    ensures
        parse_entries(d, pos, m) is None,
    decreases m - n,
{
    if n < m {
        lemma_parse_entries_stays_none(d, pos, n, (m - 1) as nat);
    }
}

impl Crl {
    /// Creates an empty CRL.
    pub fn new(issuer: &str, this_update: u64, next_update: u64) -> (c: Self)
        ensures
            c@ == (CrlModel { issuer: issuer@, this_update, next_update, entries: Seq::empty() }),
    {
        let c = Crl { issuer: String::from_str(issuer), this_update, next_update, entries: Vec::new() };
        assert(c@.entries =~= Seq::<EntryModel>::empty());
        c
    }

    /// Adds a revoked-certificate entry at the end.
    pub fn add_entry(&mut self, entry: CrlEntry)
        ensures
            final(self)@ == (CrlModel { entries: old(self)@.entries.push(entry@), ..old(self)@ }),
    {
        self.entries.push(entry);
        assert(self@.entries =~= old(self)@.entries.push(entry@));
    }

    /// Whether the serial number is listed.
    pub fn is_revoked(&self, serial_number: &[u8]) -> (b: bool)
        ensures
            b == crl_lists(self@, serial_number@),
    {
        match self.find(serial_number) {
            Some(_) => true,
            None => false,
        }
    }

    /// Index of the first entry for the serial number, if any.
    fn find(&self, serial_number: &[u8]) -> (r: Option<usize>)
        ensures
            r is None <==> !crl_lists(self@, serial_number@),
            r matches Some(k) ==> k < self@.entries.len() && self@.entries[k as int].serial
                == serial_number@ && forall|j: int|
                0 <= j < k ==> self@.entries[j].serial != serial_number@,
    {
        let n = self.entries.len();
        let mut i: usize = 0;
        while i < n
            invariant
                n == self.entries@.len(),
                i <= n,
                forall|j: int| 0 <= j < i ==> self@.entries[j].serial != serial_number@,
            decreases n - i,
        {
            if bytes_eq(self.entries[i].serial_number.as_slice(), serial_number) {
                assert(self@.entries[i as int].serial == serial_number@);
                return Some(i);
            }
            i = i + 1;
        }
        None
    }

    /// The first entry for the serial number, if any.
    pub fn get_entry(&self, serial_number: &[u8]) -> (r: Option<&CrlEntry>)
        ensures
            r is None <==> !crl_lists(self@, serial_number@),
            r matches Some(e) ==> exists|k: int|
                0 <= k < self@.entries.len() && self@.entries[k] == e@ && e@.serial
                    == serial_number@ && forall|j: int|
                    0 <= j < k ==> self@.entries[j].serial != serial_number@,
    {
        match self.find(serial_number) {
            Some(k) => Some(&self.entries[k]),
            None => None,
        }
    }

    /// Whether the CRL is current at `timestamp`.
    pub fn is_valid_at(&self, timestamp: u64) -> (b: bool)
        ensures
            b == crl_current(self@, timestamp),
    {
        timestamp >= self.this_update && timestamp <= self.next_update
    }

    /// Encodes the CRL.
    pub fn to_bytes(&self) -> (bytes: Vec<u8>)
        ensures
            bytes@ == crl_bytes(self@),
    {
        let mut bytes: Vec<u8> = Vec::new();
        let issuer = self.issuer.as_str().as_bytes();
        push_u16(&mut bytes, issuer.len() as u16);
        push_bytes(&mut bytes, issuer);
        push_u64(&mut bytes, self.this_update);
        push_u64(&mut bytes, self.next_update);
        push_u32(&mut bytes, self.entries.len() as u32);
        let ghost head = bytes@;
        let n = self.entries.len();
        let mut i: usize = 0;
        while i < n
            invariant
                n == self.entries@.len(),
                i <= n,
                bytes@ == head + entries_bytes(self@.entries.subrange(0, i as int)),
            decreases n - i,
        {
            let entry = &self.entries[i];
            bytes.push(entry.serial_number.len() as u8);
            push_bytes(&mut bytes, entry.serial_number.as_slice());
            push_u64(&mut bytes, entry.revocation_date);
            let code = match entry.reason {
                Some(r) => r.to_byte(),
                None => 255u8,
            };
            bytes.push(code);
            proof {
                let es = self@.entries.subrange(0, i + 1);
                assert(es.drop_last() =~= self@.entries.subrange(0, i as int));
                assert(es.last() == entry@);
            }
            i = i + 1;
        }
        assert(self@.entries.subrange(0, n as int) =~= self@.entries);
        bytes
    }

    /// Parses a CRL.
    pub fn from_bytes(bytes: &[u8]) -> (r: Result<Self>)
        ensures
            parse_crl(bytes@) is Some <==> r is Ok,
            r matches Ok(c) ==> parse_crl(bytes@) == Some(c@),
            r matches Err(e) ==> e matches SableError::InvalidInput(m) && m@ == crl_refusal(bytes@),
    {
        let len = bytes.len();
        if len < 22 {
            return Err(invalid_input("CRL too short"));
        }
        let issuer_len = get_u16(bytes, 0) as usize;
        let mut pos: usize = 2;
        if issuer_len > len - pos {
            return Err(invalid_input("Invalid CRL issuer length"));
        }
        let issuer = match string_from_utf8(copy_range(bytes, pos, pos + issuer_len)) {
            Some(s) => s,
            None => { return Err(invalid_input("Invalid CRL issuer encoding")); },
        };
        pos = pos + issuer_len;
        if pos + 16 > len {
            return Err(invalid_input("CRL truncated"));
        }
        let this_update = get_u64(bytes, pos);
        let next_update = get_u64(bytes, pos + 8);
        pos = pos + 16;
        if pos + 4 > len {
            return Err(invalid_input("CRL truncated"));
        }
        let entry_count = get_u32(bytes, pos);
        pos = pos + 4;
        let ghost start = pos as int;
        let mut entries: Vec<CrlEntry> = Vec::new();
        let mut k: u32 = 0;
        while k < entry_count
            invariant
                len == bytes@.len(),
                k <= entry_count,
                pos <= len,
                parse_crl(bytes@) == (match parse_entries(bytes@, start, entry_count as nat) {
                    None => None,
                    Some(es) => Some(CrlModel { issuer: issuer@, this_update, next_update, entries: es.0 }),
                }),
                parse_entries(bytes@, start, k as nat) == Some(
                    (entries@.map_values(|e: CrlEntry| e@), pos as int),
                ),
                crl_refusal(bytes@) == "CRL entry truncated"@,
            decreases entry_count - k,
        {
            if pos >= len {
                proof { lemma_parse_entries_stays_none(bytes@, start, (k + 1) as nat, entry_count as nat); }
                return Err(invalid_input("CRL entry truncated"));
            }
            let serial_len = bytes[pos] as usize;
            pos = pos + 1;
            if serial_len + 9 > len - pos {
                proof { lemma_parse_entries_stays_none(bytes@, start, (k + 1) as nat, entry_count as nat); }
                return Err(invalid_input("CRL entry truncated"));
            }
            let serial_number = copy_range(bytes, pos, pos + serial_len);
            pos = pos + serial_len;
            let revocation_date = get_u64(bytes, pos);
            pos = pos + 8;
            let reason_byte = bytes[pos];
            pos = pos + 1;
            let reason = if reason_byte == 255u8 {
                None
            } else {
                RevocationReason::from_byte(reason_byte)
            };
            let ghost before = entries@.map_values(|e: CrlEntry| e@);
            entries.push(CrlEntry { serial_number, revocation_date, reason });
            assert(entries@.map_values(|e: CrlEntry| e@) =~= before.push(entries@.last()@));
            k = k + 1;
        }
        Ok(Crl { issuer, this_update, next_update, entries })
    }
}

/// Whether every entry's serial number fits its one-byte length field.
pub open spec fn entries_encodable(es: Seq<EntryModel>) -> bool {
    forall|i: int| 0 <= i < es.len() ==> #[trigger] es[i].serial.len() <= 255
}

/// Whether a CRL can be encoded without truncating a length field.
pub open spec fn crl_encodable(c: CrlModel) -> bool {
    &&& utf8(c.issuer).len() <= 65535
    &&& c.entries.len() <= u32::MAX
    &&& entries_encodable(c.entries)
}

#[verifier::spinoff_prover]
#[verifier::rlimit(80)]
proof fn lemma_entries_roundtrip(a: Seq<u8>, es: Seq<EntryModel>, b: Seq<u8>)
    requires
        entries_encodable(es),
    ensures
        parse_entries(a + entries_bytes(es) + b, a.len() as int, es.len()) == Some(
            (es, a.len() as int + entries_bytes(es).len() as int),
        ),
    decreases es.len(),
{
    let d = a + entries_bytes(es) + b;
    if es.len() == 0 {
        assert(es =~= Seq::<EntryModel>::empty());
    } else {
        let prev = es.drop_last();
        let e = es.last();
        let eb = entry_bytes(e);
        assert(entries_encodable(prev)) by {
            assert forall|i: int| 0 <= i < prev.len() implies #[trigger] prev[i].serial.len() <= 255 by {
                assert(prev[i] == es[i]);
            }
        }
        assert(es[es.len() - 1].serial.len() <= 255);
        assert(d =~= a + entries_bytes(prev) + (eb + b));
        lemma_entries_roundtrip(a, prev, eb + b);
        let p: int = a.len() as int + entries_bytes(prev).len() as int;
        let sl = e.serial.len() as int;
        assert(d.subrange(p, p + eb.len()) =~= eb);
        assert(d[p] == eb[0]);
        assert(eb[0] == sl as u8);
        assert(d.subrange(p + 1, p + 1 + sl) =~= e.serial);
        assert(d.subrange(p + 1 + sl, p + 1 + sl + 8) =~= be64(e.revocation_date));
        lemma_be64_roundtrip(e.revocation_date);
        assert(read64(d, p + 1 + sl) == read64(be64(e.revocation_date), 0));
        assert(d[p + 1 + sl + 8] == reason_field(e.reason));
        match e.reason {
            Some(r) => { lemma_reason_roundtrip(r); },
            None => {},
        }
        assert(prev.push(e) =~= es);
    }
}

/// Parsing the encoding of a CRL gives back that CRL, provided no length
/// field truncates.
pub proof fn lemma_crl_roundtrip(c: CrlModel)
    requires
        crl_encodable(c),
    ensures
        parse_crl(crl_bytes(c)) == Some(c),
{
    let d = crl_bytes(c);
    let ib = utf8(c.issuer);
    let il = ib.len() as int;
    let head = be16(il as u16) + ib + be64(c.this_update) + be64(c.next_update) + be32(
        c.entries.len() as u32,
    );
    vstd::utf8::encode_utf8_valid_utf8(c.issuer);
    vstd::utf8::encode_utf8_decode_utf8(c.issuer);
    lemma_be16_roundtrip(il as u16);
    lemma_be64_roundtrip(c.this_update);
    lemma_be64_roundtrip(c.next_update);
    lemma_be32_roundtrip(c.entries.len() as u32);
    assert(d.subrange(0, 2) =~= be16(il as u16));
    assert(read16(d, 0) == read16(be16(il as u16), 0));
    assert(d.subrange(2, 2 + il) =~= ib);
    assert(d.subrange(2 + il, 2 + il + 8) =~= be64(c.this_update));
    assert(read64(d, 2 + il) == read64(be64(c.this_update), 0));
    assert(d.subrange(2 + il + 8, 2 + il + 16) =~= be64(c.next_update));
    assert(read64(d, 2 + il + 8) == read64(be64(c.next_update), 0));
    assert(d.subrange(2 + il + 16, 2 + il + 20) =~= be32(c.entries.len() as u32));
    assert(read32(d, 2 + il + 16) == read32(be32(c.entries.len() as u32), 0));
    assert(d =~= head + entries_bytes(c.entries) + Seq::<u8>::empty());
    lemma_entries_roundtrip(head, c.entries, Seq::<u8>::empty());
}

// ---------------------------------------------------------------------------
// Chain validator
// ---------------------------------------------------------------------------

/// Abstract state of a chain validator.
pub struct ValidatorModel {
    pub trusted_roots: Seq<CertificateModel>,
    pub max_chain_length: usize,
    pub check_revocation: bool,
    pub ocsp: Seq<OcspModel>,
    pub crls: Seq<CrlModel>,
}

/// The abstract content of each certificate of a slice.
pub open spec fn models(chain: Seq<SableCertificate>) -> Seq<CertificateModel> {
    chain.map_values(|c: SableCertificate| c@)
}

/// Whether some cached OCSP response for the serial is current at `t` and
/// reports the certificate revoked.
pub open spec fn ocsp_revoked(cache: Seq<OcspModel>, serial: Seq<u8>, t: u64) -> bool {
    exists|k: int|
        0 <= k < cache.len() && #[trigger] cache[k].serial == serial && ocsp_current(cache[k], t)
            && cache[k].status == OcspStatus::Revoked
}

/// Whether some cached CRL that is current at `t` lists the serial.
pub open spec fn crl_revoked(crls: Seq<CrlModel>, serial: Seq<u8>, t: u64) -> bool {
    exists|k: int| 0 <= k < crls.len() && crl_current(#[trigger] crls[k], t) && crl_lists(crls[k], serial)
}

/// Whether two certificates have the same subject and serial number.
pub open spec fn same_certificate(a: CertificateModel, b: CertificateModel) -> bool {
    a.subject == b.subject && a.serial == b.serial
}

/// Whether a certificate is itself a trusted root, or names a trusted root as
/// issuer and carries a signature that passes verification under that root's
/// key.
pub open spec fn chains_to_root(roots: Seq<CertificateModel>, c: CertificateModel) -> bool {
    ||| exists|k: int| 0 <= k < roots.len() && same_certificate(c, #[trigger] roots[k])
    ||| exists|k: int|
        0 <= k < roots.len() && c.issuer == #[trigger] roots[k].subject && certificate_signature_ok(
            c,
            roots[k].public_key,
        )
}

/// Why the certificate at position `i` fails at time `t`, if it does: its
/// validity period, then (when checking is on) OCSP and CRL revocation, then
/// the signature it must carry when an issuer follows it in the chain.
pub open spec fn cert_failure(v: ValidatorModel, chain: Seq<CertificateModel>, t: u64, i: int) -> Option<ValidationResult> {
    let c = chain[i];
    if t < c.not_before {
        Some(ValidationResult::NotYetValid)
    } else if t > c.not_after {
        Some(ValidationResult::Expired)
    } else if v.check_revocation && ocsp_revoked(v.ocsp, c.serial, t) {
        Some(ValidationResult::RevokedOcsp)
    } else if v.check_revocation && crl_revoked(v.crls, c.serial, t) {
        Some(ValidationResult::RevokedCrl)
    } else if i < chain.len() - 1 && !certificate_signature_ok(c, chain[i + 1].public_key) {
        Some(ValidationResult::InvalidSignature)
    } else {
        None
    }
}

/// The failure of the first certificate at or after position `i` that fails.
pub open spec fn first_failure(v: ValidatorModel, chain: Seq<CertificateModel>, t: u64, i: int) -> Option<ValidationResult>
    decreases chain.len() - i,
{
    if i < 0 || i >= chain.len() {
        None
    } else {
        match cert_failure(v, chain, t, i) {
            Some(r) => Some(r),
            None => first_failure(v, chain, t, i + 1),
        }
    }
}

/// The outcome of validating `chain` (leaf first) at time `t`.
pub open spec fn chain_outcome(v: ValidatorModel, chain: Seq<CertificateModel>, t: u64) -> ValidationResult {
    if chain.len() == 0 {
        ValidationResult::EmptyChain
    } else if chain.len() > v.max_chain_length {
        ValidationResult::ChainTooLong
    } else {
        match first_failure(v, chain, t, 0) {
            Some(r) => r,
            None => if chains_to_root(v.trusted_roots, chain.last()) {
                ValidationResult::Valid
            } else {
                ValidationResult::UntrustedRoot
            },
        }
    }
}

/// When no certificate before position `i` fails, the first failure from
/// the start is the first failure from `i`.
proof fn lemma_first_failure_skip(v: ValidatorModel, chain: Seq<CertificateModel>, t: u64, i: int)
    requires
        0 <= i <= chain.len(),
        forall|j: int| 0 <= j < i ==> cert_failure(v, chain, t, j) is None,
    ensures
        first_failure(v, chain, t, 0) == first_failure(v, chain, t, i),
    decreases i,
{
    if i > 0 {
        lemma_first_failure_skip(v, chain, t, i - 1);
    }
}

/// When no certificate fails from position `i` on, none at a position from
/// `i` fails.
proof fn lemma_no_failure_from(v: ValidatorModel, chain: Seq<CertificateModel>, t: u64, i: int, j: int)
    requires
        0 <= i <= j < chain.len(),
        first_failure(v, chain, t, i) is None,
    ensures
        cert_failure(v, chain, t, j) is None,
    decreases j - i,
{
    if i < j {
        lemma_no_failure_from(v, chain, t, i + 1, j);
    }
}

/// No failure is a success.
proof fn lemma_first_failure_not_valid(v: ValidatorModel, chain: Seq<CertificateModel>, t: u64, i: int)
    ensures
        first_failure(v, chain, t, i) != Some(ValidationResult::Valid),
    decreases chain.len() - i,
{
    if 0 <= i < chain.len() && cert_failure(v, chain, t, i) is None {
        lemma_first_failure_not_valid(v, chain, t, i + 1);
    }
}

/// A valid chain is non-empty, within the length limit, free of failing
/// certificates, and ends at a trusted root.
proof fn lemma_valid_chain_has_no_failure(v: ValidatorModel, chain: Seq<CertificateModel>, t: u64)
    requires
        chain_outcome(v, chain, t) == ValidationResult::Valid,
    ensures
        1 <= chain.len() <= v.max_chain_length,
        forall|i: int| 0 <= i < chain.len() ==> #[trigger] cert_failure(v, chain, t, i) is None,
        chains_to_root(v.trusted_roots, chain[chain.len() - 1]),
{
    lemma_first_failure_not_valid(v, chain, t, 0);
    assert(first_failure(v, chain, t, 0) is None);
    assert forall|i: int| 0 <= i < chain.len() implies #[trigger] cert_failure(v, chain, t, i) is None by {
        lemma_no_failure_from(v, chain, t, 0, i);
    }
}

/// A chain is valid at `t` only when it is non-empty and within the length
/// limit; every certificate's validity period covers `t`; when revocation
/// checking is on, no current OCSP response says a certificate is revoked
/// and no current CRL lists it; each certificate carries a signature that
/// the next one's public key accepts; and the last one is a trusted root or
/// is signed by a trusted root named as its issuer.
pub proof fn lemma_valid_chain_requirements(v: ValidatorModel, chain: Seq<CertificateModel>, t: u64)
    ensures
        chain_outcome(v, chain, t) == ValidationResult::Valid ==> {
            &&& 1 <= chain.len() <= v.max_chain_length
            &&& forall|i: int| 0 <= i < chain.len() ==> (#[trigger] chain[i]).not_before <= t && t <= chain[i].not_after
            &&& v.check_revocation ==> forall|i: int| 0 <= i < chain.len() ==> !ocsp_revoked(v.ocsp, (#[trigger] chain[i]).serial, t)
                && !crl_revoked(v.crls, chain[i].serial, t)
            &&& forall|i: int| 0 <= i < chain.len() - 1 ==> (#[trigger] chain[i]).signature.len() == 64
                && signature_accepted(chain[i + 1].public_key, tbs_bytes(chain[i]), chain[i].signature)
            &&& chains_to_root(v.trusted_roots, chain[chain.len() - 1])
        },
{
    if chain_outcome(v, chain, t) == ValidationResult::Valid {
        lemma_valid_chain_has_no_failure(v, chain, t);
        assert forall|i: int| 0 <= i < chain.len() implies (#[trigger] chain[i]).not_before <= t && t <= chain[i].not_after by {
            assert(cert_failure(v, chain, t, i) is None);
        }
        assert forall|i: int| 0 <= i < chain.len() - 1 implies (#[trigger] chain[i]).signature.len() == 64
            && signature_accepted(chain[i + 1].public_key, tbs_bytes(chain[i]), chain[i].signature) by {
            assert(cert_failure(v, chain, t, i) is None);
        }
        if v.check_revocation {
            assert forall|i: int| 0 <= i < chain.len() implies !ocsp_revoked(v.ocsp, (#[trigger] chain[i]).serial, t)
                && !crl_revoked(v.crls, chain[i].serial, t) by {
                assert(cert_failure(v, chain, t, i) is None);
            }
        }
    }
}

/// With revocation checking on, a chain valid at `t` has, for every
/// certificate, no cached OCSP response for its serial number that is
/// current at `t` (produced no later than `t`, next update no earlier) and
/// says revoked, and no cached CRL current at `t` (issued no later than
/// `t`, next update no earlier) with an entry for its serial number.
pub proof fn lemma_valid_chain_not_revoked(v: ValidatorModel, chain: Seq<CertificateModel>, t: u64)
    ensures
        chain_outcome(v, chain, t) == ValidationResult::Valid && v.check_revocation ==> {
            &&& forall|i: int, k: int|
                0 <= i < chain.len() && 0 <= k < v.ocsp.len() && #[trigger] v.ocsp[k].serial == (#[trigger] chain[i]).serial
                    && v.ocsp[k].produced_at <= t && t <= v.ocsp[k].next_update ==> v.ocsp[k].status != OcspStatus::Revoked
            &&& forall|i: int, k: int, e: int|
                0 <= i < chain.len() && 0 <= k < v.crls.len() && v.crls[k].this_update <= t && t <= v.crls[k].next_update
                    && 0 <= e < v.crls[k].entries.len() ==> (#[trigger] v.crls[k].entries[e]).serial != (#[trigger] chain[i]).serial
        },
{
    if chain_outcome(v, chain, t) == ValidationResult::Valid && v.check_revocation {
        lemma_valid_chain_has_no_failure(v, chain, t);
        assert forall|i: int, k: int|
            0 <= i < chain.len() && 0 <= k < v.ocsp.len() && #[trigger] v.ocsp[k].serial == (#[trigger] chain[i]).serial
                && v.ocsp[k].produced_at <= t && t <= v.ocsp[k].next_update implies v.ocsp[k].status != OcspStatus::Revoked by {
            assert(cert_failure(v, chain, t, i) is None);
            assert(!ocsp_revoked(v.ocsp, chain[i].serial, t));
        }
        assert forall|i: int, k: int, e: int|
            0 <= i < chain.len() && 0 <= k < v.crls.len() && v.crls[k].this_update <= t && t <= v.crls[k].next_update
                && 0 <= e < v.crls[k].entries.len() implies (#[trigger] v.crls[k].entries[e]).serial != (#[trigger] chain[i]).serial by {
            assert(cert_failure(v, chain, t, i) is None);
            assert(!crl_revoked(v.crls, chain[i].serial, t));
            if v.crls[k].entries[e].serial == chain[i].serial {
                assert(crl_lists(v.crls[k], chain[i].serial));
                assert(crl_current(v.crls[k], t));
            }
        }
    }
}

/// The first certificate of a chain within the length limit that is not yet
/// valid at `t`, with none before it failing, makes the chain not yet
/// valid; one that has expired makes it expired.
pub proof fn lemma_first_out_of_period(v: ValidatorModel, chain: Seq<CertificateModel>, t: u64, i: int)
    requires
        0 <= i < chain.len() <= v.max_chain_length,
        forall|j: int| 0 <= j < i ==> cert_failure(v, chain, t, j) is None,
    ensures
        t < chain[i].not_before ==> chain_outcome(v, chain, t) == ValidationResult::NotYetValid,
        chain[i].not_before <= t && t > chain[i].not_after ==> chain_outcome(v, chain, t) == ValidationResult::Expired,
{
    lemma_first_failure_skip(v, chain, t, i);
}

/// Validator of certificate chains against trusted roots.
#[derive(Debug, Clone)]
pub struct ChainValidator {
    trusted_roots: Vec<SableCertificate>,
    max_chain_length: usize,
    check_revocation: bool,
    ocsp_cache: Vec<OcspResponse>,
    crl_cache: Vec<Crl>,
}

impl View for ChainValidator {
    type V = ValidatorModel;

    closed spec fn view(&self) -> ValidatorModel {
        ValidatorModel {
            trusted_roots: models(self.trusted_roots@),
            max_chain_length: self.max_chain_length,
            check_revocation: self.check_revocation,
            ocsp: self.ocsp_cache@.map_values(|r: OcspResponse| r@),
            crls: self.crl_cache@.map_values(|c: Crl| c@),
        }
    }
}

impl Default for ChainValidator {
    fn default() -> (v: Self)
        ensures
            v@ == (ValidatorModel {
                trusted_roots: Seq::empty(),
                max_chain_length: 5,
                check_revocation: true,
                ocsp: Seq::empty(),
                crls: Seq::empty(),
            }),
    {
        Self::new()
    }
}

/// The current time in seconds since the epoch; a clock before the epoch
/// reads as 0.
fn current_timestamp() -> u64 {
    match unix_time_now() {
        Some(t) => t,
        None => 0,
    }
}

impl ChainValidator {
    /// A validator with no roots, maximum chain length 5 and revocation
    /// checking on.
    pub fn new() -> (v: Self)
        ensures
            v@ == (ValidatorModel {
                trusted_roots: Seq::empty(),
                max_chain_length: 5,
                check_revocation: true,
                ocsp: Seq::empty(),
                crls: Seq::empty(),
            }),
    {
        Self::with_settings(5, true)
    }

    /// A validator with no roots and the given settings.
    pub fn with_settings(max_chain_length: usize, check_revocation: bool) -> (v: Self)
        ensures
            v@ == (ValidatorModel {
                trusted_roots: Seq::empty(),
                max_chain_length,
                check_revocation,
                ocsp: Seq::empty(),
                crls: Seq::empty(),
            }),
    {
        let v = ChainValidator {
            trusted_roots: Vec::new(),
            max_chain_length,
            check_revocation,
            ocsp_cache: Vec::new(),
            crl_cache: Vec::new(),
        };
        assert(v@.trusted_roots =~= Seq::<CertificateModel>::empty());
        assert(v@.ocsp =~= Seq::<OcspModel>::empty());
        assert(v@.crls =~= Seq::<CrlModel>::empty());
        v
    }

    /// Adds a trusted root certificate.
    pub fn add_trusted_root(&mut self, cert: SableCertificate)
        ensures
            final(self)@ == (ValidatorModel {
                trusted_roots: old(self)@.trusted_roots.push(cert@),
                ..old(self)@
            }),
    {
        self.trusted_roots.push(cert);
        assert(self@.trusted_roots =~= old(self)@.trusted_roots.push(cert@));
    }

    /// Removes all trusted roots.
    pub fn clear_trusted_roots(&mut self)
        ensures
            final(self)@ == (ValidatorModel { trusted_roots: Seq::empty(), ..old(self)@ }),
    {
        self.trusted_roots.clear();
        assert(self@.trusted_roots =~= Seq::<CertificateModel>::empty());
    }

    /// The number of trusted roots.
    pub fn trusted_root_count(&self) -> (n: usize)
        ensures
            n == self@.trusted_roots.len(),
    {
        self.trusted_roots.len()
    }

    /// Adds an OCSP response to the cache.
    pub fn add_ocsp_response(&mut self, response: OcspResponse)
        ensures
            final(self)@ == (ValidatorModel { ocsp: old(self)@.ocsp.push(response@), ..old(self)@ }),
    {
        self.ocsp_cache.push(response);
        assert(self@.ocsp =~= old(self)@.ocsp.push(response@));
    }

    /// Adds a CRL to the cache.
    pub fn add_crl(&mut self, crl: Crl)
        ensures
            final(self)@ == (ValidatorModel { crls: old(self)@.crls.push(crl@), ..old(self)@ }),
    {
        self.crl_cache.push(crl);
        assert(self@.crls =~= old(self)@.crls.push(crl@));
    }

    /// Empties the OCSP cache.
    pub fn clear_ocsp_cache(&mut self)
        ensures
            final(self)@ == (ValidatorModel { ocsp: Seq::empty(), ..old(self)@ }),
    {
        self.ocsp_cache.clear();
        assert(self@.ocsp =~= Seq::<OcspModel>::empty());
    }

    /// Empties the CRL cache.
    pub fn clear_crl_cache(&mut self)
        ensures
            final(self)@ == (ValidatorModel { crls: Seq::empty(), ..old(self)@ }),
    {
        self.crl_cache.clear();
        assert(self@.crls =~= Seq::<CrlModel>::empty());
    }

    /// Turns revocation checking on or off.
    pub fn set_revocation_checking(&mut self, enabled: bool)
        ensures
            final(self)@ == (ValidatorModel { check_revocation: enabled, ..old(self)@ }),
    {
        self.check_revocation = enabled;
    }

    /// Sets the maximum chain length.
    pub fn set_max_chain_length(&mut self, length: usize)
        ensures
            final(self)@ == (ValidatorModel { max_chain_length: length, ..old(self)@ }),
    {
        self.max_chain_length = length;
    }

    /// The maximum chain length.
    pub fn max_chain_length(&self) -> (n: usize)
        ensures
            n == self@.max_chain_length,
    {
        self.max_chain_length
    }

    /// Whether revocation checking is on.
    pub fn revocation_checking(&self) -> (b: bool)
        ensures
            b == self@.check_revocation,
    {
        self.check_revocation
    }

    /// The number of cached OCSP responses.
    pub fn ocsp_cache_len(&self) -> (n: usize)
        ensures
            n == self@.ocsp.len(),
    {
        self.ocsp_cache.len()
    }

    /// The number of cached CRLs.
    pub fn crl_cache_len(&self) -> (n: usize)
        ensures
            n == self@.crls.len(),
    {
        self.crl_cache.len()
    }

    /// Validates a chain (leaf first) at the current time.
    pub fn validate_chain(&self, chain: &[SableCertificate]) -> (r: ValidationResult)
        ensures
            exists|t: u64| r == chain_outcome(self@, models(chain@), t),
    {
        let t = current_timestamp();
        self.validate_chain_at(chain, t)
    }

    /// Validates a chain (leaf first) at time `timestamp`.
    pub fn validate_chain_at(&self, chain: &[SableCertificate], timestamp: u64) -> (r: ValidationResult)
        ensures
            r == chain_outcome(self@, models(chain@), timestamp),
    {
        let ghost cs = models(chain@);
        let n = chain.len();
        if n == 0 {
            return ValidationResult::EmptyChain;
        }
        if n > self.max_chain_length {
            return ValidationResult::ChainTooLong;
        }
        let mut i: usize = 0;
        while i < n
            invariant
                n == chain@.len(),
                cs == models(chain@),
                0 < n <= self@.max_chain_length,
                i <= n,
                forall|j: int| 0 <= j < i ==> cert_failure(self@, cs, timestamp, j) is None,
            decreases n - i,
        {
            let cert = &chain[i];
            assert(cs[i as int] == cert@);
            let failure = self.check_certificate(chain, i, timestamp);
            match failure {
                Some(f) => {
                    proof {
                        lemma_first_failure_skip(self@, cs, timestamp, i as int);
                    }
                    return f;
                },
                None => {},
            }
            i = i + 1;
        }
        proof {
            lemma_first_failure_skip(self@, cs, timestamp, n as int);
        }
        let last = &chain[n - 1];
        assert(cs.last() == last@);
        if !self.chains_to_trusted_root(last) {
            return ValidationResult::UntrustedRoot;
        }
        ValidationResult::Valid
    }

    /// Why the certificate at position `i` fails, if it does.
    fn check_certificate(&self, chain: &[SableCertificate], i: usize, timestamp: u64) -> (r: Option<ValidationResult>)
        requires
            i < chain@.len(),
        ensures
            r == cert_failure(self@, models(chain@), timestamp, i as int),
    {
        let cert = &chain[i];
        let ghost cs = models(chain@);
        assert(cs[i as int] == cert@);
        if timestamp < cert.not_before() {
            return Some(ValidationResult::NotYetValid);
        }
        if timestamp > cert.not_after() {
            return Some(ValidationResult::Expired);
        }
        if self.check_revocation {
            if self.ocsp_says_revoked(cert.serial_number(), timestamp) {
                return Some(ValidationResult::RevokedOcsp);
            }
            if self.is_certificate_in_crl(cert, timestamp) {
                return Some(ValidationResult::RevokedCrl);
            }
        }
        if i < chain.len() - 1 {
            let issuer_cert = &chain[i + 1];
            if !self.verify_certificate_signature(cert, issuer_cert) {
                return Some(ValidationResult::InvalidSignature);
            }
        }
        None
    }

    /// Whether the certificate is revoked according to its OCSP response at
    /// the current time; `Ok(false)` when no current response exists.
    pub fn check_ocsp(&self, cert: &SableCertificate) -> (r: Result<bool>)
        ensures
            exists|t: u64| r == Ok::<bool, SableError>(ocsp_revoked(self@.ocsp, cert@.serial, t)),
    {
        self.check_ocsp_at(cert, current_timestamp())
    }

    /// Whether the certificate is revoked according to its OCSP response at
    /// `timestamp`; `Ok(false)` when no current response exists.
    pub fn check_ocsp_at(&self, cert: &SableCertificate, timestamp: u64) -> (r: Result<bool>)
        ensures
            r == Ok::<bool, SableError>(ocsp_revoked(self@.ocsp, cert@.serial, timestamp)),
    {
        Ok(self.ocsp_says_revoked(cert.serial_number(), timestamp))
    }

    /// Whether the serial number appears in the CRL encoded by `crl_bytes`.
    pub fn check_crl(&self, cert: &SableCertificate, crl_bytes: &[u8]) -> (r: Result<bool>)
        ensures
            parse_crl(crl_bytes@) is None <==> r is Err,
            r matches Err(e) ==> e is InvalidInput,
            parse_crl(crl_bytes@) matches Some(c) ==> r == Ok::<bool, SableError>(
                crl_lists(c, cert@.serial),
            ),
    {
        let crl = Crl::from_bytes(crl_bytes)?;
        Ok(crl.is_revoked(cert.serial_number()))
    }

    /// Whether some current cached CRL lists the certificate.
    fn is_certificate_in_crl(&self, cert: &SableCertificate, timestamp: u64) -> (b: bool)
        ensures
            b == crl_revoked(self@.crls, cert@.serial, timestamp),
    {
        let n = self.crl_cache.len();
        let mut i: usize = 0;
        while i < n
            invariant
                n == self.crl_cache@.len(),
                i <= n,
                forall|j: int|
                    0 <= j < i ==> !(crl_current(#[trigger] self@.crls[j], timestamp) && crl_lists(
                        self@.crls[j],
                        cert@.serial,
                    )),
            decreases n - i,
        {
            let crl = &self.crl_cache[i];
            assert(self@.crls[i as int] == crl@);
            if crl.is_valid_at(timestamp) && crl.is_revoked(cert.serial_number()) {
                return true;
            }
            i = i + 1;
        }
        false
    }

    /// Whether some cached OCSP response for the serial is current and says
    /// revoked.
    fn ocsp_says_revoked(&self, serial_number: &[u8], timestamp: u64) -> (b: bool)
        ensures
            b == ocsp_revoked(self@.ocsp, serial_number@, timestamp),
    {
        let n = self.ocsp_cache.len();
        let mut i: usize = 0;
        while i < n
            invariant
                n == self.ocsp_cache@.len(),
                n == self@.ocsp.len(),
                i <= n,
                forall|j: int|
                    0 <= j < i ==> !(#[trigger] self@.ocsp[j].serial == serial_number@ && ocsp_current(
                        self@.ocsp[j],
                        timestamp,
                    ) && self@.ocsp[j].status == OcspStatus::Revoked),
            decreases n - i,
        {
            let response = &self.ocsp_cache[i];
            assert(self@.ocsp[i as int] == response@);
            if bytes_eq(response.serial_number.as_slice(), serial_number) && response.is_valid_at(timestamp)
                && response.status == OcspStatus::Revoked {
                assert(self@.ocsp[i as int].serial == serial_number@);
                assert(ocsp_current(self@.ocsp[i as int], timestamp));
                return true;
            }
            i = i + 1;
        }
        false
    }

    /// Whether `cert` carries a signature that passes verification under the
    /// issuer's subject key.
    fn verify_certificate_signature(&self, cert: &SableCertificate, issuer: &SableCertificate) -> (b: bool)
        ensures
            b == certificate_signature_ok(cert@, issuer@.public_key),
    {
        let verifying_key = VerifyingKey::from_bytes(issuer.subject_public_key());
        match cert.verify(&verifying_key) {
            Ok(b) => b,
            Err(_) => false,
        }
    }

    /// Whether the certificate is a trusted root, or is issued by one and
    /// carries a signature that passes verification.
    fn chains_to_trusted_root(&self, cert: &SableCertificate) -> (b: bool)
        ensures
            b == chains_to_root(self@.trusted_roots, cert@),
    {
        let n = self.trusted_roots.len();
        let mut i: usize = 0;
        while i < n
            invariant
                n == self.trusted_roots@.len(),
                i <= n,
                forall|j: int| 0 <= j < i ==> !same_certificate(cert@, #[trigger] self@.trusted_roots[j]),
            decreases n - i,
        {
            let root = &self.trusted_roots[i];
            assert(self@.trusted_roots[i as int] == root@);
            if certificates_match(cert, root) {
                return true;
            }
            i = i + 1;
        }
        let mut i: usize = 0;
        while i < n
            invariant
                n == self.trusted_roots@.len(),
                i <= n,
                forall|j: int| 0 <= j < n ==> !same_certificate(cert@, #[trigger] self@.trusted_roots[j]),
                forall|j: int|
                    0 <= j < i ==> !(cert@.issuer == #[trigger] self@.trusted_roots[j].subject
                        && certificate_signature_ok(cert@, self@.trusted_roots[j].public_key)),
            decreases n - i,
        {
            let root = &self.trusted_roots[i];
            assert(self@.trusted_roots[i as int] == root@);
            if str_eq(cert.issuer(), root.subject()) {
                let verifying_key = VerifyingKey::from_bytes(root.subject_public_key());
                let ok = match cert.verify(&verifying_key) {
                    Ok(b) => b,
                    Err(_) => false,
                };
                if ok {
                    return true;
                }
            }
            i = i + 1;
        }
        false
    }
}

/// Whether two certificates have the same subject and serial number.
fn certificates_match(a: &SableCertificate, b: &SableCertificate) -> (r: bool)
    ensures
        r == same_certificate(a@, b@),
{
    str_eq(a.subject(), b.subject()) && bytes_eq(a.serial_number(), b.serial_number())
}

/// The SHA-256 fingerprint of a certificate's encoding.
pub fn certificate_fingerprint(cert: &SableCertificate) -> (f: [u8; 32])
    ensures
        f@ == spec_sha256(certificate_der(cert@)),
{
    let der = cert.to_der();
    sha256(der.as_slice())
}

// ---------------------------------------------------------------------------
// Chain builder
// ---------------------------------------------------------------------------

/// Issues test certificate chains from one signing key.
pub struct ChainBuilder {
    signing_key: SigningKey,
    issuer_name: String,
}

impl ChainBuilder {
    /// A builder with a fresh random key, named `root_name`.
    pub fn new(root_name: &str) -> (r: Result<Self>)
        ensures
            r matches Ok(b) ==> b.issuer_name_view() == root_name@,
            r matches Err(e) ==> e == SableError::RandomGeneration,
    {
        let signing_key = SigningKey::generate()?;
        Ok(ChainBuilder { signing_key, issuer_name: String::from_str(root_name) })
    }

    /// The name the builder issues under.
    pub closed spec fn issuer_name_view(&self) -> Seq<char> {
        self.issuer_name@
    }

    /// The secret of the builder's signing key.
    pub closed spec fn key_secret(&self) -> Seq<u8> {
        self.signing_key.secret_bytes()
    }

    /// A builder using an existing key.
    pub fn with_key(signing_key: SigningKey, issuer_name: &str) -> (b: Self)
        ensures
            b.issuer_name_view() == issuer_name@,
            b.key_secret() == signing_key.secret_bytes(),
    {
        ChainBuilder { signing_key, issuer_name: String::from_str(issuer_name) }
    }

    /// The name the builder issues under.
    pub fn issuer_name(&self) -> (s: &str)
        ensures
            s@ == self.issuer_name_view(),
    {
        self.issuer_name.as_str()
    }

    /// A certificate whose subject is the builder's name, signed by its key.
    pub fn root_certificate(&self, commitment: &[u8; 48]) -> (r: Result<SableCertificate>)
        ensures
            r matches Ok(c) ==> freshly_issued(
                c@,
                self.issuer_name_view(),
                commitment@,
                ProofType::Groth16,
                DEFAULT_VALIDITY_SECONDS,
                self.key_secret(),
            ),
            r matches Err(e) ==> fresh_issue_error(e, DEFAULT_VALIDITY_SECONDS),
    {
        SableCertificate::new(self.issuer_name.as_str(), commitment, &self.signing_key)
    }

    /// A Groth16 certificate for `subject`, signed by the builder's key.
    pub fn issue_certificate(&self, subject: &str, commitment: &[u8; 48], validity_seconds: u64) -> (r: Result<SableCertificate>)
        ensures
            r matches Ok(c) ==> freshly_issued(
                c@,
                subject@,
                commitment@,
                ProofType::Groth16,
                validity_seconds,
                self.key_secret(),
            ),
            r matches Err(e) ==> fresh_issue_error(e, validity_seconds),
    {
        SableCertificate::new_with_options(
            subject,
            commitment,
            &self.signing_key,
            ProofType::Groth16,
            validity_seconds,
        )
    }

    /// The signing key.
    pub fn signing_key(&self) -> (k: &SigningKey)
        ensures
            k.secret_bytes() == self.key_secret(),
    {
        &self.signing_key
    }

    /// The verifying key of the signing key.
    pub fn verifying_key(&self) -> (k: VerifyingKey)
        ensures
            k@ == crate::attestation::x509::derive_public(self.key_secret()),
    {
        self.signing_key.verifying_key()
    }
}

} // verus!
