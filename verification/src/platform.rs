//! The library's boundary with the operating system, the standard library's
//! text decoding, and the hash, key-derivation and memory-wiping crates.

use vstd::prelude::*;
use vstd::utf8::{decode_utf8, valid_utf8};
use sha2::Digest;

verus! {

/// The SHA-256 digest of a byte string, as computed by the `sha2` crate.
pub uninterp spec fn spec_sha256(data: Seq<u8>) -> Seq<u8>;

/// Calls `sha2::Sha256::digest` on `data` and returns the 32 digest bytes.
/// Claimed: the result is `spec_sha256(data)`, a function of `data` alone.
#[verifier::external_body]
pub(crate) fn sha256(data: &[u8]) -> (r: [u8; 32])
    ensures
        r@ == spec_sha256(data@),
{
    let digest = sha2::Sha256::digest(data);
    let mut out = [0u8; 32];
    out.copy_from_slice(&digest);
    out
}

/// Calls `zeroize::Zeroize::zeroize` on a 32-byte array, which overwrites
/// each byte with zero by a volatile write the compiler cannot elide.
/// Claimed: afterwards all 32 bytes are zero.
#[verifier::external_body]
pub(crate) fn wipe32(bytes: &mut [u8; 32])
    ensures
        final(bytes)@ == Seq::new(32, |i: int| 0u8),
{
    zeroize::Zeroize::zeroize(bytes);
}

/// Calls `getrandom::getrandom` to fill a fresh buffer of `n` bytes.
/// Claimed: a successful result holds exactly `n` bytes; nothing is claimed
/// of their values, and `None` reports that the source failed.
#[verifier::external_body]
pub(crate) fn os_random(n: usize) -> (r: Option<Vec<u8>>)
    ensures
        r matches Some(v) ==> v@.len() == n,
{
    let mut buf = vec![0u8; n];
    match getrandom::getrandom(&mut buf) {
        Ok(()) => Some(buf),
        Err(_) => None,
    }
}

/// Reads `std::time::SystemTime::now()` as whole seconds since the Unix
/// epoch. `None` when the clock reads earlier than the epoch. Nothing is
/// claimed of the value: it depends on the machine's clock.
#[verifier::external_body]
pub(crate) fn unix_time_now() -> (r: Option<u64>) {
    match std::time::SystemTime::now().duration_since(std::time::UNIX_EPOCH) {
        Ok(d) => Some(d.as_secs()),
        Err(_) => None,
    }
}

/// `std::time::Instant`, a reading of the monotonic clock; opaque here.
#[verifier::external_type_specification]
#[verifier::external_body]
pub struct ExInstant(std::time::Instant);

/// Reads `std::time::Instant::now()`. Nothing is claimed of the value: it
/// depends on the machine's clock.
#[verifier::external_body]
pub(crate) fn monotonic_now() -> (r: std::time::Instant) {
    std::time::Instant::now()
}

/// Whether the instant `a` is at or after the instant `b`, by
/// `Instant`'s `PartialOrd::ge`. Nothing is claimed: the instants are
/// opaque clock readings.
#[verifier::external_body]
pub(crate) fn instant_at_or_after(a: &std::time::Instant, b: &std::time::Instant) -> (r: bool) {
    a.ge(b)
}

/// Calls `Instant::checked_add` with `secs` whole seconds; `None` when the
/// instant cannot be represented. Nothing is claimed of the value.
#[verifier::external_body]
pub(crate) fn instant_plus_secs(base: &std::time::Instant, secs: u64) -> (r: Option<std::time::Instant>) {
    base.checked_add(std::time::Duration::from_secs(secs))
}

/// Calls `String::from_utf8` on `bytes`.
/// Claimed, as std documents: it succeeds exactly when `bytes` is valid UTF-8,
/// and the string then holds the characters that `bytes` encodes.
#[verifier::external_body]
pub(crate) fn string_from_utf8(bytes: Vec<u8>) -> (r: Option<String>)
    ensures
        r is Some <==> valid_utf8(bytes@),
        r matches Some(s) ==> s@ == decode_utf8(bytes@),
{
    match String::from_utf8(bytes) {
        Ok(s) => Some(s),
        Err(_) => None,
    }
}

/// The HKDF-SHA256 output of `len` bytes for a salt, input key material and
/// info string, as computed by the `hkdf` crate.
pub uninterp spec fn spec_hkdf_sha256(salt: Seq<u8>, ikm: Seq<u8>, info: Seq<u8>, len: nat) -> Seq<u8>;

/// Calls `hkdf::Hkdf::<sha2::Sha256>::new(Some(salt), ikm)` and then
/// `expand(info, ..)` into a buffer of `len` bytes. `expand` refuses only a
/// buffer longer than 255 blocks of 32 bytes, which `requires` rules out.
/// Claimed: the result holds `len` bytes and is `spec_hkdf_sha256` of the
/// arguments, a function of them alone.
#[verifier::external_body]
pub(crate) fn hkdf_sha256(salt: &[u8], ikm: &[u8], info: &[u8], len: usize) -> (r: Vec<u8>)
    requires
        len <= 8160,
    ensures
        r@.len() == len,
        r@ == spec_hkdf_sha256(salt@, ikm@, info@, len as nat),
{
    let hk = hkdf::Hkdf::<sha2::Sha256>::new(Some(salt), ikm);
    let mut okm = vec![0u8; len];
    hk.expand(info, &mut okm).expect("length within the HKDF-SHA256 output limit");
    okm
}

} // verus!
