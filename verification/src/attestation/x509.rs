//! Certificates carrying a SABLE commitment extension, and the keys that
//! sign and check them.

use vstd::prelude::*;
use vstd::string::StringExecFns;
use vstd::utf8::{decode_utf8, encode_utf8, valid_utf8};
use crate::codec::{be16, be64, lemma_be16_roundtrip, lemma_be64_roundtrip, bytes_eq, copy_range, get_u16, get_u64, push_bytes, push_u16, push_u64, read16, read64};
use crate::error::{cryptographic, invalid_input, Result, SableError};
use crate::platform::{os_random, sha256, spec_sha256, string_from_utf8, unix_time_now, wipe32};
use crate::COMMITMENT_SIZE;

verus! {

/// SABLE private enterprise OID prefix.
pub const SABLE_OID_PREFIX: &'static str = "1.3.6.1.4.1.99999.1";

/// OID of the commitment extension (48-byte compressed point).
pub const OID_SABLE_COMMITMENT: &'static str = "1.3.6.1.4.1.99999.1.1";

/// OID of the proof-type extension.
pub const OID_SABLE_PROOF_TYPE: &'static str = "1.3.6.1.4.1.99999.1.2";

/// OID of the issuance-timestamp extension.
pub const OID_SABLE_ISSUED_AT: &'static str = "1.3.6.1.4.1.99999.1.3";

/// Length of an encoded extension.
pub const EXTENSION_DER_LEN: usize = 58;

/// Minimum length of an encoded certificate that parsing accepts.
pub const MIN_CERTIFICATE_DER_LEN: usize = 150;

/// Validity of a certificate issued without an explicit period: one year.
pub const DEFAULT_VALIDITY_SECONDS: u64 = 31536000;

/// Issuer name written into every issued certificate.
pub const SABLE_ISSUER_NAME: &'static str = "CN=SABLE-CA,O=Government";

// ---------------------------------------------------------------------------
// Proof types
// ---------------------------------------------------------------------------

/// Type of zero-knowledge proof associated with a certificate.
#[derive(Debug, Clone, Copy, PartialEq, Eq, Structural)]
pub enum ProofType {
    /// Groth16 zk-SNARK proof (the default).
    Groth16,
    /// PLONK proof system.
    Plonk,
    /// Bulletproofs range proof.
    Bulletproofs,
    /// No proof attached (commitment only).
    NoProof,
}

/// The byte that encodes a proof type.
pub open spec fn proof_type_byte(p: ProofType) -> u8 {
    match p {
        ProofType::Groth16 => 0,
        ProofType::Plonk => 1,
        ProofType::Bulletproofs => 2,
        ProofType::NoProof => 255,
    }
}

/// The proof type a byte denotes; unknown bytes denote `None`.
pub open spec fn proof_type_of(b: u8) -> ProofType {
    if b == 0 {
        ProofType::Groth16
    } else if b == 1 {
        ProofType::Plonk
    } else if b == 2 {
        ProofType::Bulletproofs
    } else {
        ProofType::NoProof
    }
}

impl ProofType {
    /// Converts from the byte representation.
    pub fn from_byte(b: u8) -> (p: Self)
        ensures
            p == proof_type_of(b),
    {
        match b {
            0 => ProofType::Groth16,
            1 => ProofType::Plonk,
            2 => ProofType::Bulletproofs,
            _ => ProofType::NoProof,
        }
    }

    /// Converts to the byte representation.
    pub fn to_byte(self) -> (b: u8)
        ensures
            b == proof_type_byte(self),
    {
        match self {
            ProofType::Groth16 => 0,
            ProofType::Plonk => 1,
            ProofType::Bulletproofs => 2,
            ProofType::NoProof => 255,
        }
    }
}

impl Default for ProofType {
    fn default() -> (p: Self)
        ensures
            p == ProofType::Groth16,
    {
        ProofType::Groth16
    }
}

/// Decoding a proof type's byte gives back that proof type.
pub proof fn lemma_proof_type_roundtrip(p: ProofType)
    ensures
        proof_type_of(proof_type_byte(p)) == p,
{
}

// ---------------------------------------------------------------------------
// Keys
// ---------------------------------------------------------------------------

/// The bytes of a string's UTF-8 encoding.
pub open spec fn utf8(s: Seq<char>) -> Seq<u8> {
    encode_utf8(s)
}

/// The public key derived from a secret: SHA-256 of the secret and a fixed tag.
pub open spec fn derive_public(secret: Seq<u8>) -> Seq<u8> {
    spec_sha256(secret + utf8("SABLE-VERIFYING-KEY"@))
}

/// The digest that binds a signature's first half to a public key and a
/// message: SHA-256 of the half, the key, the message and a fixed tag.
pub open spec fn binding_digest(head: Seq<u8>, public: Seq<u8>, message: Seq<u8>) -> Seq<u8> {
    spec_sha256(head + public + message + utf8("SABLE-SIGNATURE"@))
}

/// The signature of `message` under `secret`: a digest of the secret and
/// the message, followed by the digest binding it to the signer's public
/// key and the message.
pub open spec fn spec_sign(secret: Seq<u8>, message: Seq<u8>) -> Seq<u8> {
    let h1 = spec_sha256(secret + message);
    h1 + binding_digest(h1, derive_public(secret), message)
}

/// Whether a 64-byte signature is accepted for `message` under the public
/// key `public`: its second half is the digest binding its first half to
/// that key and the message.
pub open spec fn signature_accepted(public: Seq<u8>, message: Seq<u8>, sig: Seq<u8>) -> bool {
    sig.len() == 64 && sig.subrange(32, 64) == binding_digest(sig.subrange(0, 32), public, message)
}

/// Secret key used by a certificate authority to sign certificates.
#[derive(Clone)]
pub struct SigningKey {
    secret: [u8; 32],
}

impl SigningKey {
    /// The 32 secret bytes.
    pub closed spec fn secret_bytes(&self) -> Seq<u8> {
        self.secret@
    }

    /// Creates a signing key from raw bytes.
    pub fn from_bytes(bytes: &[u8; 32]) -> (k: Self)
        ensures
            k.secret_bytes() == bytes@,
    {
        SigningKey { secret: *bytes }
    }

    /// Overwrites the secret with zeros.
    pub fn zeroize(&mut self)
        ensures
            final(self).secret_bytes() == Seq::new(32, |i: int| 0u8),
    {
        wipe32(&mut self.secret);
    }

    /// Generates a new random signing key.
    pub fn generate() -> (r: Result<Self>)
        ensures
            r matches Err(e) ==> e == SableError::RandomGeneration,
            r matches Ok(k) ==> k.secret_bytes().len() == 32,
    {
        match os_random(32) {
            Some(bytes) => Ok(Self::from_random(&bytes)),
            None => Err(SableError::RandomGeneration),
        }
    }

    /// A signing key holding the given 32 random bytes.
    fn from_random(bytes: &Vec<u8>) -> (k: Self)
        requires
            bytes@.len() == 32,
        ensures
            k.secret_bytes() == bytes@,
    {
        let mut secret = [0u8; 32];
        let mut i: usize = 0;
        while i < 32
            invariant
                i <= 32,
                bytes@.len() == 32,
                forall|j: int| 0 <= j < i ==> secret@[j] == bytes@[j],
            decreases 32 - i,
        {
            secret[i] = bytes[i];
            i = i + 1;
        }
        assert(secret@ =~= bytes@);
        SigningKey { secret }
    }

    /// The public verifying key.
    pub fn verifying_key(&self) -> (vk: VerifyingKey)
        ensures
            vk@ == derive_public(self.secret_bytes()),
    {
        let mut input: Vec<u8> = Vec::new();
        push_bytes(&mut input, self.secret.as_slice());
        push_bytes(&mut input, "SABLE-VERIFYING-KEY".as_bytes());
        VerifyingKey { public: sha256(input.as_slice()) }
    }

    /// Signs a message, producing a 64-byte signature.
    pub fn sign(&self, message: &[u8]) -> (sig: [u8; 64])
        ensures
            sig@ == spec_sign(self.secret_bytes(), message@),
            signature_accepted(derive_public(self.secret_bytes()), message@, sig@),
    {
        let mut first: Vec<u8> = Vec::new();
        push_bytes(&mut first, self.secret.as_slice());
        push_bytes(&mut first, message);
        let h1 = sha256(first.as_slice());
        let public = self.verifying_key().to_bytes();
        let h2 = binding_digest_exec(&h1, &public, message);
        let mut signature = [0u8; 64];
        let mut i: usize = 0;
        while i < 32
            invariant
                i <= 32,
                forall|j: int| 0 <= j < i ==> signature@[j] == h1@[j],
                forall|j: int| 0 <= j < i ==> signature@[32 + j] == h2@[j],
            decreases 32 - i,
        {
            signature[i] = h1[i];
            signature[32 + i] = h2[i];
            i = i + 1;
        }
        assert(signature@ =~= h1@ + h2@);
        assert(signature@.subrange(0, 32) =~= h1@);
        assert(signature@.subrange(32, 64) =~= h2@);
        signature
    }
}

/// The digest binding a signature's first half to a public key and a message.
fn binding_digest_exec(head: &[u8; 32], public: &[u8; 32], message: &[u8]) -> (d: [u8; 32])
    ensures
        d@ == binding_digest(head@, public@, message@),
{
    let mut input: Vec<u8> = Vec::new();
    push_bytes(&mut input, head.as_slice());
    push_bytes(&mut input, public.as_slice());
    push_bytes(&mut input, message);
    push_bytes(&mut input, "SABLE-SIGNATURE".as_bytes());
    sha256(input.as_slice())
}

/// Public key used to check certificate signatures.
#[derive(Debug, Clone, PartialEq, Eq)]
pub struct VerifyingKey {
    public: [u8; 32],
}

impl View for VerifyingKey {
    type V = Seq<u8>;

    closed spec fn view(&self) -> Seq<u8> {
        self.public@
    }
}

impl VerifyingKey {
    /// Creates a verifying key from raw bytes.
    pub fn from_bytes(bytes: &[u8; 32]) -> (k: Self)
        ensures
            k@ == bytes@,
    {
        VerifyingKey { public: *bytes }
    }

    /// The raw public key bytes.
    pub fn to_bytes(&self) -> (b: [u8; 32])
        ensures
            b@ == self@,
    {
        self.public
    }

    /// Checks a signature over `message` under this key.
    pub fn verify(&self, message: &[u8], signature: &[u8; 64]) -> (ok: bool)
        ensures
            ok == signature_accepted(self@, message@, signature@),
    {
        let sig = signature.as_slice();
        let head = array32(sig, 0);
        let tail = copy_range(sig, 32, 64);
        let expected = binding_digest_exec(&head, &self.public, message);
        assert(head@ =~= signature@.subrange(0, 32));
        bytes_eq(tail.as_slice(), expected.as_slice())
    }
}

// ---------------------------------------------------------------------------
// Commitment extension
// ---------------------------------------------------------------------------

/// Abstract content of a commitment extension.
pub struct ExtensionModel {
    pub commitment: Seq<u8>,
    pub proof_type: ProofType,
    pub issued_at: u64,
}

/// The encoding of an extension: version byte 1, the commitment, the proof
/// type byte, and the issuance time in big-endian order.
pub open spec fn extension_der(e: ExtensionModel) -> Seq<u8> {
    seq![1u8] + e.commitment + seq![proof_type_byte(e.proof_type)] + be64(e.issued_at)
}

/// The extension that a byte string encodes, if any. Bytes after the first
/// 58 are ignored.
pub open spec fn parse_extension(d: Seq<u8>) -> Option<ExtensionModel> {
    if d.len() < 58 || d[0] != 1 {
        None
    } else {
        Some(
            ExtensionModel {
                commitment: d.subrange(1, 49),
                proof_type: proof_type_of(d[49]),
                issued_at: read64(d, 50),
            },
        )
    }
}

/// Commitment extension linking a certificate to a biometric commitment.
#[derive(Debug, Clone, PartialEq, Eq)]
pub struct SableExtension {
    commitment: [u8; 48],
    proof_type: ProofType,
    issued_at: u64,
}

impl View for SableExtension {
    type V = ExtensionModel;

    closed spec fn view(&self) -> ExtensionModel {
        ExtensionModel {
            commitment: self.commitment@,
            proof_type: self.proof_type,
            issued_at: self.issued_at,
        }
    }
}

impl SableExtension {
    /// Creates a new extension.
    pub fn new(commitment: [u8; 48], proof_type: ProofType, issued_at: u64) -> (e: Self)
        ensures
            e@ == (ExtensionModel { commitment: commitment@, proof_type, issued_at }),
    {
        SableExtension { commitment, proof_type, issued_at }
    }

    /// Creates an extension from a commitment of any length, as decoded from
    /// a serialised form; the commitment must be exactly 48 bytes.
    pub fn from_parts(commitment: &[u8], proof_type: ProofType, issued_at: u64) -> (r: Result<Self>)
        ensures
            commitment@.len() == COMMITMENT_SIZE <==> r is Ok,
            r matches Ok(e) ==> e@ == (ExtensionModel {
                commitment: commitment@,
                proof_type,
                issued_at,
            }),
            r matches Err(e) ==> e is InvalidInput,
    {
        if commitment.len() != COMMITMENT_SIZE {
            return Err(invalid_input("commitment must be 48 bytes"));
        }
        let c = array48(commitment, 0);
        assert(commitment@.subrange(0, 48) =~= commitment@);
        Ok(SableExtension { commitment: c, proof_type, issued_at })
    }

    /// The commitment bytes.
    pub fn commitment(&self) -> (c: &[u8; 48])
        ensures
            c@ == self@.commitment,
    {
        &self.commitment
    }

    /// The proof type.
    pub fn proof_type(&self) -> (p: ProofType)
        ensures
            p == self@.proof_type,
    {
        self.proof_type
    }

    /// The issuance timestamp.
    pub fn issued_at(&self) -> (t: u64)
        ensures
            t == self@.issued_at,
    {
        self.issued_at
    }

    /// Encodes the extension.
    pub fn to_der(&self) -> (der: Vec<u8>)
        ensures
            der@ == extension_der(self@),
            der@.len() == EXTENSION_DER_LEN,
    {
        let mut der: Vec<u8> = Vec::new();
        der.push(1u8);
        push_bytes(&mut der, self.commitment.as_slice());
        der.push(self.proof_type.to_byte());
        push_u64(&mut der, self.issued_at);
        der
    }

    /// Parses an extension.
    pub fn from_der(der: &[u8]) -> (r: Result<Self>)
        ensures
            parse_extension(der@) is Some <==> r is Ok,
            r matches Ok(e) ==> parse_extension(der@) == Some(e@),
            r matches Err(e) ==> e is InvalidInput,
    {
        if der.len() < EXTENSION_DER_LEN {
            return Err(invalid_input("SABLE extension too short"));
        }
        if der[0] != 1u8 {
            return Err(invalid_input("Unknown SABLE extension version"));
        }
        let commitment = array48(der, 1);
        let proof_type = ProofType::from_byte(der[49]);
        let issued_at = get_u64(der, 50);
        Ok(SableExtension { commitment, proof_type, issued_at })
    }
}

/// The 48 bytes `s[start..start + 48]` as an array.
fn array48(s: &[u8], start: usize) -> (a: [u8; 48])
    requires
        start + 48 <= s@.len(),
    ensures
        a@ == s@.subrange(start as int, start + 48),
{
    let mut a = [0u8; 48];
    let mut i: usize = 0;
    while i < 48
        invariant
            i <= 48,
            start + 48 <= s@.len(),
            s@.len() == s.len(),
            forall|j: int| 0 <= j < i ==> a@[j] == s@[start + j],
        decreases 48 - i,
    {
        a[i] = s[start + i];
        i = i + 1;
    }
    assert(a@ =~= s@.subrange(start as int, start + 48));
    a
}

/// The 32 bytes `s[start..start + 32]` as an array.
pub fn array32(s: &[u8], start: usize) -> (a: [u8; 32])
    requires
        start + 32 <= s@.len(),
    ensures
        a@ == s@.subrange(start as int, start + 32),
{
    let mut a = [0u8; 32];
    let mut i: usize = 0;
    while i < 32
        invariant
            i <= 32,
            start + 32 <= s@.len(),
            s@.len() == s.len(),
            forall|j: int| 0 <= j < i ==> a@[j] == s@[start + j],
        decreases 32 - i,
    {
        a[i] = s[start + i];
        i = i + 1;
    }
    assert(a@ =~= s@.subrange(start as int, start + 32));
    a
}

/// Decoding an encoded extension gives back that extension.
pub proof fn lemma_extension_roundtrip(e: ExtensionModel)
    requires
        e.commitment.len() == 48,
    ensures
        parse_extension(extension_der(e)) == Some(e),
{
    let d = extension_der(e);
    lemma_be64_roundtrip(e.issued_at);
    assert(d.subrange(1, 49) =~= e.commitment);
    assert(d.subrange(50, 58) =~= be64(e.issued_at));
    assert(read64(d, 50) == read64(be64(e.issued_at), 0));
    lemma_proof_type_roundtrip(e.proof_type);
}

// ---------------------------------------------------------------------------
// Certificates
// ---------------------------------------------------------------------------

/// Abstract content of a certificate.
pub struct CertificateModel {
    pub version: u8,
    pub subject: Seq<char>,
    pub issuer: Seq<char>,
    pub serial: Seq<u8>,
    pub not_before: u64,
    pub not_after: u64,
    pub public_key: Seq<u8>,
    pub extension: ExtensionModel,
    pub signature: Seq<u8>,
}

/// The to-be-signed encoding: every field but the signature, each string and
/// the serial number preceded by its length (truncated to the field width).
pub open spec fn tbs_bytes(c: CertificateModel) -> Seq<u8> {
    seq![c.version] + be16(utf8(c.subject).len() as u16) + utf8(c.subject) + be16(
        utf8(c.issuer).len() as u16,
    ) + utf8(c.issuer) + seq![c.serial.len() as u8] + c.serial + be64(c.not_before) + be64(
        c.not_after,
    ) + c.public_key + be16(58) + extension_der(c.extension)
}

/// The full encoding: the to-be-signed bytes, then the length-prefixed signature.
#[verifier::opaque]
pub open spec fn certificate_der(c: CertificateModel) -> Seq<u8> {
    tbs_bytes(c) + be16(c.signature.len() as u16) + c.signature
}

/// Offset of the issuer length field.
pub open spec fn off_issuer(d: Seq<u8>) -> int {
    3 + read16(d, 1) as int
}

/// Offset of the serial-number length byte.
pub open spec fn off_serial(d: Seq<u8>) -> int {
    off_issuer(d) + 2 + read16(d, off_issuer(d)) as int
}

/// Offset of the validity timestamps.
pub open spec fn off_times(d: Seq<u8>) -> int {
    off_serial(d) + 1 + d[off_serial(d)] as int
}

/// Offset of the extension length field.
pub open spec fn off_ext(d: Seq<u8>) -> int {
    off_times(d) + 48
}

/// Offset of the signature length field.
pub open spec fn off_sig(d: Seq<u8>) -> int {
    off_ext(d) + 2 + read16(d, off_ext(d)) as int
}

/// Offset just past the signature.
pub open spec fn off_end(d: Seq<u8>) -> int {
    off_sig(d) + 2 + read16(d, off_sig(d)) as int
}

/// Whether a byte string is an acceptable certificate encoding: long enough,
/// version 3, and each length-prefixed field fits in what remains, with
/// UTF-8 names and a well-formed extension. Bytes after the signature are
/// ignored.
#[verifier::opaque]
pub open spec fn certificate_well_formed(d: Seq<u8>) -> bool {
    &&& d.len() >= 150
    &&& d[0] == 3
    &&& off_issuer(d) <= d.len()
    &&& valid_utf8(d.subrange(3, off_issuer(d)))
    &&& off_issuer(d) + 2 <= d.len()
    &&& off_serial(d) <= d.len()
    &&& valid_utf8(d.subrange(off_issuer(d) + 2, off_serial(d)))
    &&& off_serial(d) + 1 <= d.len()
    &&& off_times(d) <= d.len()
    &&& off_times(d) + 16 <= d.len()
    &&& off_times(d) + 48 <= d.len()
    &&& off_ext(d) + 2 <= d.len()
    &&& off_sig(d) <= d.len()
    &&& parse_extension(d.subrange(off_ext(d) + 2, off_sig(d))) is Some
    &&& off_sig(d) + 2 <= d.len()
    &&& off_end(d) <= d.len()
}

/// The certificate that a well-formed encoding denotes.
#[verifier::opaque]
pub open spec fn certificate_fields(d: Seq<u8>) -> CertificateModel {
    CertificateModel {
        version: d[0],
        subject: decode_utf8(d.subrange(3, off_issuer(d))),
        issuer: decode_utf8(d.subrange(off_issuer(d) + 2, off_serial(d))),
        serial: d.subrange(off_serial(d) + 1, off_times(d)),
        not_before: read64(d, off_times(d)),
        not_after: read64(d, off_times(d) + 8),
        public_key: d.subrange(off_times(d) + 16, off_times(d) + 48),
        extension: parse_extension(d.subrange(off_ext(d) + 2, off_sig(d))).unwrap(),
        signature: d.subrange(off_sig(d) + 2, off_end(d)),
    }
}

/// The certificate a byte string encodes, if any.
pub open spec fn parse_certificate(d: Seq<u8>) -> Option<CertificateModel> {
    if certificate_well_formed(d) {
        Some(certificate_fields(d))
    } else {
        None
    }
}

/// X.509v3-style certificate with a SABLE commitment extension.
#[derive(Debug, Clone, PartialEq, Eq)]
pub struct SableCertificate {
    version: u8,
    subject: String,
    issuer: String,
    serial_number: Vec<u8>,
    not_before: u64,
    not_after: u64,
    subject_public_key: [u8; 32],
    sable_extension: SableExtension,
    signature: Vec<u8>,
}

/// Whether time `t` lies within a certificate's validity period, bounds
/// included.
pub open spec fn validity_covers(c: CertificateModel, t: u64) -> bool {
    c.not_before <= t <= c.not_after
}

impl View for SableCertificate {
    type V = CertificateModel;

    closed spec fn view(&self) -> CertificateModel {
        CertificateModel {
            version: self.version,
            subject: self.subject@,
            issuer: self.issuer@,
            serial: self.serial_number@,
            not_before: self.not_before,
            not_after: self.not_after,
            public_key: self.subject_public_key@,
            extension: self.sable_extension@,
            signature: self.signature@,
        }
    }
}

/// Whether a certificate's fields have the widths that the encoding fixes.
pub open spec fn certificate_shape(c: CertificateModel) -> bool {
    c.public_key.len() == 32 && c.extension.commitment.len() == 48
}

/// Whether a certificate's 64-byte signature passes verification under the
/// public key `public`.
pub open spec fn certificate_signature_ok(c: CertificateModel, public: Seq<u8>) -> bool {
    c.signature.len() == 64 && signature_accepted(public, tbs_bytes(c), c.signature)
}

/// The public key bound to a subject: SHA-256 of the commitment and subject.
pub open spec fn subject_key(commitment: Seq<u8>, subject: Seq<char>) -> Seq<u8> {
    spec_sha256(commitment + utf8(subject))
}

/// Whether `c` is a certificate issued at some time for `subject` and
/// `commitment` with `proof_type`, valid for `validity_seconds` from then,
/// with a 16-byte serial number, and signed with the key `secret`.
pub open spec fn freshly_issued(
    c: CertificateModel,
    subject: Seq<char>,
    commitment: Seq<u8>,
    proof_type: ProofType,
    validity_seconds: u64,
    secret: Seq<u8>,
) -> bool {
    let u = unsigned_certificate(subject, commitment, proof_type, c.not_before, c.not_after, c.serial);
    &&& c.serial.len() == 16
    &&& c.not_after == c.not_before + validity_seconds
    &&& c == CertificateModel { signature: spec_sign(secret, tbs_bytes(u)), ..u }
}

/// The errors of issuing a certificate now: the clock reading before the
/// epoch, the random source failing, or (only for a nonzero validity
/// period) the period passing the end of time.
pub open spec fn fresh_issue_error(e: SableError, validity_seconds: u64) -> bool {
    ||| e matches SableError::Cryptographic(m) && m@ == "System time error"@
    ||| e == SableError::RandomGeneration
    ||| validity_seconds > 0 && (e matches SableError::InvalidInput(m) && m@
        == "Certificate validity period overflows"@)
}

/// The certificate issued at `now` with serial `serial`, before signing.
pub open spec fn unsigned_certificate(
    subject: Seq<char>,
    commitment: Seq<u8>,
    proof_type: ProofType,
    now: u64,
    not_after: u64,
    serial: Seq<u8>,
) -> CertificateModel {
    unsigned_certificate_by(subject, SABLE_ISSUER_NAME@, commitment, proof_type, now, not_after, serial)
}

/// The unsigned certificate that `issuer` issues at time `now`.
pub open spec fn unsigned_certificate_by(
    subject: Seq<char>,
    issuer: Seq<char>,
    commitment: Seq<u8>,
    proof_type: ProofType,
    now: u64,
    not_after: u64,
    serial: Seq<u8>,
) -> CertificateModel {
    CertificateModel {
        version: 3,
        subject,
        issuer,
        serial,
        not_before: now,
        not_after,
        public_key: subject_key(commitment, subject),
        extension: ExtensionModel { commitment, proof_type, issued_at: now },
        signature: Seq::empty(),
    }
}

/// Appends the bytes of a string preceded by their count as a 16-bit field.
fn push_str16(buf: &mut Vec<u8>, s: &String)
    ensures
        final(buf)@ == old(buf)@ + be16(utf8(s@).len() as u16) + utf8(s@),
{
    let bytes = s.as_str().as_bytes();
    push_u16(buf, bytes.len() as u16);
    push_bytes(buf, bytes);
}

impl SableCertificate {
    /// Creates a certificate valid for one year from now, signed by `issuer_key`.
    pub fn new(subject: &str, commitment: &[u8; 48], issuer_key: &SigningKey) -> (r: Result<Self>)
        ensures
            r matches Ok(c) ==> freshly_issued(
                c@,
                subject@,
                commitment@,
                ProofType::Groth16,
                DEFAULT_VALIDITY_SECONDS,
                issuer_key.secret_bytes(),
            ),
            r matches Err(e) ==> fresh_issue_error(e, DEFAULT_VALIDITY_SECONDS),
    {
        Self::new_with_options(
            subject,
            commitment,
            issuer_key,
            ProofType::Groth16,
            DEFAULT_VALIDITY_SECONDS,
        )
    }

    /// Creates a certificate valid for `validity_seconds` from now, with a
    /// fresh random 16-byte serial number, signed by `issuer_key`. Fails when
    /// the clock reads before the epoch, when the random source fails, or
    /// when the validity period would pass the end of time.
    pub fn new_with_options(
        subject: &str,
        commitment: &[u8; 48],
        issuer_key: &SigningKey,
        proof_type: ProofType,
        validity_seconds: u64,
    ) -> (r: Result<Self>)
        ensures
            r matches Ok(c) ==> freshly_issued(
                c@,
                subject@,
                commitment@,
                proof_type,
                validity_seconds,
                issuer_key.secret_bytes(),
            ),
            r matches Err(e) ==> fresh_issue_error(e, validity_seconds),
    {
        let now = match unix_time_now() {
            Some(t) => t,
            None => { return Err(cryptographic("System time error")); },
        };
        let serial = match os_random(16) {
            Some(v) => v,
            None => { return Err(SableError::RandomGeneration); },
        };
        Self::issue(subject, commitment, issuer_key, proof_type, validity_seconds, now, serial)
    }

    /// Issues a certificate at time `now` with serial number `serial`.
    /// Fails only when the validity period would pass the end of time.
    pub fn issue(
        subject: &str,
        commitment: &[u8; 48],
        issuer_key: &SigningKey,
        proof_type: ProofType,
        validity_seconds: u64,
        now: u64,
        serial: Vec<u8>,
    ) -> (r: Result<Self>)
        ensures
            r is Ok <==> now + validity_seconds <= u64::MAX,
            r matches Ok(c) ==> c@ == {
                let u = unsigned_certificate(
                    subject@,
                    commitment@,
                    proof_type,
                    now,
                    (now + validity_seconds) as u64,
                    serial@,
                );
                CertificateModel { signature: spec_sign(issuer_key.secret_bytes(), tbs_bytes(u)), ..u }
            },
            r matches Err(e) ==> e matches SableError::InvalidInput(m) && m@
                == "Certificate validity period overflows"@,
    {
        Self::issue_by(subject, SABLE_ISSUER_NAME, commitment, issuer_key, proof_type, validity_seconds, now, serial)
    }

    /// Issues a certificate naming `issuer` as its issuer, at time `now`, with
    /// serial number `serial`. Fails only when the validity period would pass
    /// the end of time.
    pub fn issue_by(
        subject: &str,
        issuer: &str,
        commitment: &[u8; 48],
        issuer_key: &SigningKey,
        proof_type: ProofType,
        validity_seconds: u64,
        now: u64,
        serial: Vec<u8>,
    ) -> (r: Result<Self>)
        ensures
            r is Ok <==> now + validity_seconds <= u64::MAX,
            r matches Ok(c) ==> c@ == {
                let u = unsigned_certificate_by(
                    subject@,
                    issuer@,
                    commitment@,
                    proof_type,
                    now,
                    (now + validity_seconds) as u64,
                    serial@,
                );
                CertificateModel { signature: spec_sign(issuer_key.secret_bytes(), tbs_bytes(u)), ..u }
            },
            r matches Err(e) ==> e matches SableError::InvalidInput(m) && m@
                == "Certificate validity period overflows"@,
    {
        let not_after = match now.checked_add(validity_seconds) {
            Some(t) => t,
            None => { return Err(invalid_input("Certificate validity period overflows")); },
        };
        let sable_extension = SableExtension::new(*commitment, proof_type, now);
        let mut pk_input: Vec<u8> = Vec::new();
        push_bytes(&mut pk_input, commitment.as_slice());
        push_bytes(&mut pk_input, subject.as_bytes());
        let subject_public_key = sha256(pk_input.as_slice());
        let mut cert = SableCertificate {
            version: 3,
            subject: String::from_str(subject),
            issuer: String::from_str(issuer),
            serial_number: serial,
            not_before: now,
            not_after,
            subject_public_key,
            sable_extension,
            signature: Vec::new(),
        };
        let tbs = cert.to_tbs_bytes();
        let signature = issuer_key.sign(tbs.as_slice());
        cert.signature = copy_range(signature.as_slice(), 0, 64);
        assert(signature@.subrange(0, 64) =~= signature@);
        Ok(cert)
    }

    /// Parses a certificate.
    pub fn from_der(der: &[u8]) -> (r: Result<Self>)
        ensures
            certificate_well_formed(der@) <==> r is Ok,
            r matches Ok(c) ==> c@ == certificate_fields(der@),
            r matches Err(e) ==> e is InvalidInput,
    {
        reveal(certificate_well_formed);
        reveal(certificate_fields);
        let len = der.len();
        if len < MIN_CERTIFICATE_DER_LEN {
            return Err(invalid_input("Certificate too short"));
        }
        let version = der[0];
        if version != 3u8 {
            return Err(invalid_input("Unsupported certificate version"));
        }
        let subject_len = get_u16(der, 1) as usize;
        let mut pos: usize = 3;
        if subject_len > len - pos {
            return Err(invalid_input("Invalid subject length"));
        }
        let subject = match string_from_utf8(copy_range(der, pos, pos + subject_len)) {
            Some(s) => s,
            None => { return Err(invalid_input("Invalid subject encoding")); },
        };
        pos = pos + subject_len;
        if pos + 2 > len {
            return Err(invalid_input("Certificate truncated"));
        }
        let issuer_len = get_u16(der, pos) as usize;
        pos = pos + 2;
        if issuer_len > len - pos {
            return Err(invalid_input("Invalid issuer length"));
        }
        let issuer = match string_from_utf8(copy_range(der, pos, pos + issuer_len)) {
            Some(s) => s,
            None => { return Err(invalid_input("Invalid issuer encoding")); },
        };
        pos = pos + issuer_len;
        if pos + 1 > len {
            return Err(invalid_input("Certificate truncated"));
        }
        let serial_len = der[pos] as usize;
        pos = pos + 1;
        if serial_len > len - pos {
            return Err(invalid_input("Invalid serial length"));
        }
        let serial_number = copy_range(der, pos, pos + serial_len);
        pos = pos + serial_len;
        if pos + 16 > len {
            return Err(invalid_input("Certificate truncated"));
        }
        let not_before = get_u64(der, pos);
        let not_after = get_u64(der, pos + 8);
        pos = pos + 16;
        if pos + 32 > len {
            return Err(invalid_input("Certificate truncated"));
        }
        let subject_public_key = array32(der, pos);
        pos = pos + 32;
        if pos + 2 > len {
            return Err(invalid_input("Certificate truncated"));
        }
        let ext_len = get_u16(der, pos) as usize;
        pos = pos + 2;
        if ext_len > len - pos {
            return Err(invalid_input("Invalid extension length"));
        }
        let ext_bytes = copy_range(der, pos, pos + ext_len);
        let sable_extension = match SableExtension::from_der(ext_bytes.as_slice()) {
            Ok(e) => e,
            Err(e) => { return Err(e); },
        };
        pos = pos + ext_len;
        if pos + 2 > len {
            return Err(invalid_input("Certificate truncated"));
        }
        let sig_len = get_u16(der, pos) as usize;
        pos = pos + 2;
        if sig_len > len - pos {
            return Err(invalid_input("Invalid signature length"));
        }
        let signature = copy_range(der, pos, pos + sig_len);
        Ok(
            SableCertificate {
                version,
                subject,
                issuer,
                serial_number,
                not_before,
                not_after,
                subject_public_key,
                sable_extension,
                signature,
            },
        )
    }

    /// Encodes the certificate.
    pub fn to_der(&self) -> (der: Vec<u8>)
        ensures
            der@ == certificate_der(self@),
    {
        reveal(certificate_der);
        let mut der = self.to_tbs_bytes();
        push_u16(&mut der, self.signature.len() as u16);
        push_bytes(&mut der, self.signature.as_slice());
        der
    }

    /// The to-be-signed bytes: the encoding without the signature.
    fn to_tbs_bytes(&self) -> (tbs: Vec<u8>)
        ensures
            tbs@ == tbs_bytes(self@),
    {
        let mut tbs: Vec<u8> = Vec::new();
        tbs.push(self.version);
        push_str16(&mut tbs, &self.subject);
        push_str16(&mut tbs, &self.issuer);
        tbs.push(self.serial_number.len() as u8);
        push_bytes(&mut tbs, self.serial_number.as_slice());
        push_u64(&mut tbs, self.not_before);
        push_u64(&mut tbs, self.not_after);
        push_bytes(&mut tbs, self.subject_public_key.as_slice());
        let ext_der = self.sable_extension.to_der();
        push_u16(&mut tbs, ext_der.len() as u16);
        push_bytes(&mut tbs, ext_der.as_slice());
        tbs
    }

    /// The commitment carried by the extension.
    pub fn get_commitment(&self) -> (c: [u8; 48])
        ensures
            c@ == self@.extension.commitment,
    {
        self.sable_extension.commitment
    }

    /// The commitment extension.
    pub fn sable_extension(&self) -> (e: &SableExtension)
        ensures
            e@ == self@.extension,
    {
        &self.sable_extension
    }

    /// Checks the signature; a signature that is not 64 bytes fails.
    pub fn verify(&self, issuer_public: &VerifyingKey) -> (r: Result<bool>)
        ensures
            r == Ok::<bool, SableError>(certificate_signature_ok(self@, issuer_public@)),
    {
        if self.signature.len() != 64 {
            return Ok(false);
        }
        let tbs = self.to_tbs_bytes();
        let sig = array64(self.signature.as_slice());
        Ok(issuer_public.verify(tbs.as_slice(), &sig))
    }

    /// Whether `timestamp` lies within the validity period, bounds included.
    pub fn is_valid_at(&self, timestamp: u64) -> (b: bool)
        ensures
            b == (self@.not_before <= timestamp <= self@.not_after),
    {
        timestamp >= self.not_before && timestamp <= self.not_after
    }

    /// Whether the current time lies within the validity period; a clock
    /// before the epoch reads as time 0.
    pub fn is_valid_now(&self) -> (b: bool)
        ensures
            exists|t: u64| b == #[trigger] validity_covers(self@, t),
    {
        let now = match unix_time_now() {
            Some(t) => t,
            None => 0,
        };
        let b = self.is_valid_at(now);
        assert(b == validity_covers(self@, now));
        b
    }

    /// The subject distinguished name.
    pub fn subject(&self) -> (s: &str)
        ensures
            s@ == self@.subject,
    {
        self.subject.as_str()
    }

    /// The issuer distinguished name.
    pub fn issuer(&self) -> (s: &str)
        ensures
            s@ == self@.issuer,
    {
        self.issuer.as_str()
    }

    /// The serial number.
    pub fn serial_number(&self) -> (s: &[u8])
        ensures
            s@ == self@.serial,
    {
        self.serial_number.as_slice()
    }

    /// The start of the validity period.
    pub fn not_before(&self) -> (t: u64)
        ensures
            t == self@.not_before,
    {
        self.not_before
    }

    /// The end of the validity period.
    pub fn not_after(&self) -> (t: u64)
        ensures
            t == self@.not_after,
    {
        self.not_after
    }

    /// The subject public key.
    pub fn subject_public_key(&self) -> (k: &[u8; 32])
        ensures
            k@ == self@.public_key,
    {
        &self.subject_public_key
    }

    /// The proof type named by the extension.
    pub fn proof_type(&self) -> (p: ProofType)
        ensures
            p == self@.extension.proof_type,
    {
        self.sable_extension.proof_type
    }

    /// The certificate version.
    pub fn version(&self) -> (v: u8)
        ensures
            v == self@.version,
    {
        self.version
    }

    /// The signature bytes.
    pub fn signature(&self) -> (s: &[u8])
        ensures
            s@ == self@.signature,
    {
        self.signature.as_slice()
    }

    /// A certificate holding exactly the given fields, as read back from a
    /// field-by-field serialisation; nothing is checked or signed.
    pub fn from_fields(
        version: u8,
        subject: String,
        issuer: String,
        serial_number: Vec<u8>,
        not_before: u64,
        not_after: u64,
        subject_public_key: [u8; 32],
        sable_extension: SableExtension,
        signature: Vec<u8>,
    ) -> (c: Self)
        ensures
            c@ == (CertificateModel {
                version,
                subject: subject@,
                issuer: issuer@,
                serial: serial_number@,
                not_before,
                not_after,
                public_key: subject_public_key@,
                extension: sable_extension@,
                signature: signature@,
            }),
    {
        SableCertificate {
            version,
            subject,
            issuer,
            serial_number,
            not_before,
            not_after,
            subject_public_key,
            sable_extension,
            signature,
        }
    }
}

/// The 64 bytes of `s` as an array.
fn array64(s: &[u8]) -> (a: [u8; 64])
    requires
        s@.len() == 64,
    ensures
        a@ == s@,
{
    let mut a = [0u8; 64];
    let mut i: usize = 0;
    while i < 64
        invariant
            i <= 64,
            s@.len() == 64,
            forall|j: int| 0 <= j < i ==> a@[j] == s@[j],
        decreases 64 - i,
    {
        a[i] = s[i];
        i = i + 1;
    }
    assert(a@ =~= s@);
    a
}

/// Whether a certificate can be encoded without truncating a length field:
/// names of at most 65535 bytes, a serial of at most 255 bytes, a signature of
/// at most 65535 bytes, and fields of the fixed widths.
pub open spec fn certificate_encodable(c: CertificateModel) -> bool {
    &&& certificate_shape(c)
    &&& utf8(c.subject).len() <= 65535
    &&& utf8(c.issuer).len() <= 65535
    &&& c.serial.len() <= 255
    &&& c.signature.len() <= 65535
}

/// Parsing the encoding of a version-3 certificate gives back that
/// certificate, provided no length field truncates and the encoding reaches
/// the minimum length that parsing accepts.
#[verifier::spinoff_prover]
#[verifier::rlimit(60)]
pub proof fn lemma_certificate_roundtrip(c: CertificateModel)
    requires
        c.version == 3,
        certificate_encodable(c),
        certificate_der(c).len() >= 150,
    ensures
        parse_certificate(certificate_der(c)) == Some(c),
        certificate_der(c).len() <= 200000,
{
    reveal(certificate_der);
    reveal(certificate_well_formed);
    reveal(certificate_fields);
    let d = certificate_der(c);
    let sb = utf8(c.subject);
    let ib = utf8(c.issuer);
    let ls = sb.len() as int;
    let li = ib.len() as int;
    let ln = c.serial.len() as int;
    let ext = extension_der(c.extension);
    vstd::utf8::encode_utf8_valid_utf8(c.subject);
    vstd::utf8::encode_utf8_valid_utf8(c.issuer);
    vstd::utf8::encode_utf8_decode_utf8(c.subject);
    vstd::utf8::encode_utf8_decode_utf8(c.issuer);
    lemma_be16_roundtrip(ls as u16);
    lemma_be16_roundtrip(li as u16);
    lemma_be16_roundtrip(58);
    lemma_be16_roundtrip(c.signature.len() as u16);
    lemma_be64_roundtrip(c.not_before);
    lemma_be64_roundtrip(c.not_after);
    lemma_extension_roundtrip(c.extension);
    let p_iss = 3 + ls;
    let p_ser = p_iss + 2 + li;
    let p_t = p_ser + 1 + ln;
    let p_ext = p_t + 48;
    let p_sig = p_ext + 2 + 58;
    let p_end = p_sig + 2 + c.signature.len();
    assert(d.len() == p_end);
    assert(d[0] == 3);
    assert(d.subrange(1, 3) =~= be16(ls as u16));
    assert(read16(d, 1) == read16(be16(ls as u16), 0));
    assert(d.subrange(3, p_iss) =~= sb);
    assert(d.subrange(p_iss, p_iss + 2) =~= be16(li as u16));
    assert(read16(d, p_iss) == read16(be16(li as u16), 0));
    assert(d.subrange(p_iss + 2, p_ser) =~= ib);
    assert(d[p_ser] == ln as u8);
    assert(d.subrange(p_ser + 1, p_t) =~= c.serial);
    assert(d.subrange(p_t, p_t + 8) =~= be64(c.not_before));
    assert(read64(d, p_t) == read64(be64(c.not_before), 0));
    assert(d.subrange(p_t + 8, p_t + 16) =~= be64(c.not_after));
    assert(read64(d, p_t + 8) == read64(be64(c.not_after), 0));
    assert(d.subrange(p_t + 16, p_t + 48) =~= c.public_key);
    assert(d.subrange(p_ext, p_ext + 2) =~= be16(58));
    assert(read16(d, p_ext) == read16(be16(58), 0));
    assert(d.subrange(p_ext + 2, p_sig) =~= ext);
    assert(d.subrange(p_sig, p_sig + 2) =~= be16(c.signature.len() as u16));
    assert(read16(d, p_sig) == read16(be16(c.signature.len() as u16), 0));
    assert(d.subrange(p_sig + 2, p_end) =~= c.signature);
    assert(off_issuer(d) == p_iss);
    assert(off_serial(d) == p_ser);
    assert(off_times(d) == p_t);
    assert(off_sig(d) == p_sig);
    assert(off_end(d) == p_end);
    assert(certificate_fields(d) == c);
}

/// The settings of a certificate builder.
pub struct BuilderModel {
    /// Subject distinguished name.
    pub subject: Seq<char>,
    /// Issuer distinguished name, if set.
    pub issuer: Option<Seq<char>>,
    /// 48-byte commitment.
    pub commitment: Seq<u8>,
    /// Proof type.
    pub proof_type: ProofType,
    /// Validity period in seconds.
    pub validity_seconds: u64,
    /// Serial number, if set.
    pub serial: Option<Seq<u8>>,
}

/// Builder for certificates with custom options. The issuer and serial
/// number settings are recorded; `build` issues through
/// `SableCertificate::new_with_options`, which fixes the issuer name and
/// draws a fresh serial number.
pub struct SableCertificateBuilder {
    subject: String,
    issuer: Option<String>,
    commitment: [u8; 48],
    proof_type: ProofType,
    validity_seconds: u64,
    serial_number: Option<Vec<u8>>,
}

impl View for SableCertificateBuilder {
    type V = BuilderModel;

    closed spec fn view(&self) -> BuilderModel {
        BuilderModel {
            subject: self.subject@,
            issuer: match self.issuer {
                Some(s) => Some(s@),
                None => None,
            },
            commitment: self.commitment@,
            proof_type: self.proof_type,
            validity_seconds: self.validity_seconds,
            serial: match self.serial_number {
                Some(v) => Some(v@),
                None => None,
            },
        }
    }
}

impl SableCertificateBuilder {
    /// A builder for `subject` and `commitment`: Groth16 proofs, one year of
    /// validity, no issuer or serial number set.
    pub fn new(subject: &str, commitment: [u8; 48]) -> (b: Self)
        ensures
            b@ == (BuilderModel {
                subject: subject@,
                issuer: None,
                commitment: commitment@,
                proof_type: ProofType::Groth16,
                validity_seconds: DEFAULT_VALIDITY_SECONDS,
                serial: None,
            }),
    {
        SableCertificateBuilder {
            subject: String::from_str(subject),
            issuer: None,
            commitment,
            proof_type: ProofType::Groth16,
            validity_seconds: DEFAULT_VALIDITY_SECONDS,
            serial_number: None,
        }
    }

    /// Sets the issuer distinguished name.
    pub fn issuer(self, issuer: &str) -> (b: Self)
        ensures
            b@ == (BuilderModel { issuer: Some(issuer@), ..self@ }),
    {
        SableCertificateBuilder { issuer: Some(String::from_str(issuer)), ..self }
    }

    /// Sets the proof type.
    pub fn proof_type(self, proof_type: ProofType) -> (b: Self)
        ensures
            b@ == (BuilderModel { proof_type, ..self@ }),
    {
        SableCertificateBuilder { proof_type, ..self }
    }

    /// Sets the validity period in seconds.
    pub fn validity(self, seconds: u64) -> (b: Self)
        ensures
            b@ == (BuilderModel { validity_seconds: seconds, ..self@ }),
    {
        SableCertificateBuilder { validity_seconds: seconds, ..self }
    }

    /// Sets a serial number.
    pub fn serial_number(self, serial: Vec<u8>) -> (b: Self)
        ensures
            b@ == (BuilderModel { serial: Some(serial@), ..self@ }),
    {
        SableCertificateBuilder { serial_number: Some(serial), ..self }
    }

    /// Issues and signs the certificate at time `now`: under the builder's
    /// issuer (the SABLE issuer when none is set), with the builder's serial
    /// number (`fresh_serial` when none is set), subject, commitment, proof
    /// type and validity. Fails only when the validity period would pass the
    /// end of time.
    pub fn build_at(self, issuer_key: &SigningKey, now: u64, fresh_serial: Vec<u8>) -> (r: Result<SableCertificate>)
        ensures
            r is Ok <==> now + self@.validity_seconds <= u64::MAX,
            r matches Ok(c) ==> c@ == {
                let u = unsigned_certificate_by(
                    self@.subject,
                    builder_issuer(self@),
                    self@.commitment,
                    self@.proof_type,
                    now,
                    (now + self@.validity_seconds) as u64,
                    match self@.serial {
                        Some(s) => s,
                        None => fresh_serial@,
                    },
                );
                CertificateModel { signature: spec_sign(issuer_key.secret_bytes(), tbs_bytes(u)), ..u }
            },
            r matches Err(e) ==> e matches SableError::InvalidInput(m) && m@
                == "Certificate validity period overflows"@,
    {
        let serial = match self.serial_number {
            Some(v) => v,
            None => fresh_serial,
        };
        match &self.issuer {
            Some(issuer) => SableCertificate::issue_by(
                self.subject.as_str(),
                issuer.as_str(),
                &self.commitment,
                issuer_key,
                self.proof_type,
                self.validity_seconds,
                now,
                serial,
            ),
            None => SableCertificate::issue(
                self.subject.as_str(),
                &self.commitment,
                issuer_key,
                self.proof_type,
                self.validity_seconds,
                now,
                serial,
            ),
        }
    }

    /// Issues and signs the certificate now, by `build_at` with the clock's
    /// reading and, when the builder has no serial number, a fresh random
    /// 16-byte one. Fails when the clock reads before the epoch, when a
    /// random serial cannot be drawn, or when the validity period would pass
    /// the end of time.
    pub fn build(self, issuer_key: &SigningKey) -> (r: Result<SableCertificate>)
        ensures
            r matches Ok(c) ==> built_from(c@, self@, issuer_key.secret_bytes()),
            r matches Err(e) ==> fresh_issue_error(e, self@.validity_seconds) && (e
                == SableError::RandomGeneration ==> self@.serial is None),
    {
        let now = match unix_time_now() {
            Some(t) => t,
            None => { return Err(cryptographic("System time error")); },
        };
        let fresh = match self.serial_number {
            Some(_) => Vec::new(),
            None => match os_random(16) {
                Some(v) => v,
                None => { return Err(SableError::RandomGeneration); },
            },
        };
        self.build_at(issuer_key, now, fresh)
    }
}

/// The issuer a builder with settings `b` names: its own, or the SABLE
/// issuer when none is set.
pub open spec fn builder_issuer(b: BuilderModel) -> Seq<char> {
    match b.issuer {
        Some(i) => i,
        None => SABLE_ISSUER_NAME@,
    }
}

/// Whether `c` is the certificate a builder with settings `b` issues at some
/// time, signed with the key `secret`: the builder's issuer (or the SABLE
/// issuer), its serial number (or a 16-byte one), and its subject,
/// commitment, proof type and validity period.
pub open spec fn built_from(c: CertificateModel, b: BuilderModel, secret: Seq<u8>) -> bool {
    let issuer = builder_issuer(b);
    let u = unsigned_certificate_by(
        b.subject,
        issuer,
        b.commitment,
        b.proof_type,
        c.not_before,
        c.not_after,
        c.serial,
    );
    &&& match b.serial {
        Some(s) => c.serial == s,
        None => c.serial.len() == 16,
    }
    &&& c.not_after == c.not_before + b.validity_seconds
    &&& c == CertificateModel { signature: spec_sign(secret, tbs_bytes(u)), ..u }
}

} // verus!
