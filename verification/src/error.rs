use vstd::prelude::*;
use vstd::string::StringExecFns;

verus! {

/// Errors reported by the library.
#[derive(Debug, Clone, PartialEq, Eq)]
pub enum SableError {
    /// The caller supplied malformed or unacceptable input.
    InvalidInput(String),
    /// A cryptographic check failed.
    Cryptographic(String),
    /// The operating system could not provide random bytes.
    RandomGeneration,
    /// A biometric data-handling error.
    CryptoError(String),
}

/// Result type used throughout the library.
pub type Result<T> = core::result::Result<T, SableError>;

/// Builds an `InvalidInput` error carrying `msg`.
pub fn invalid_input(msg: &str) -> (e: SableError)
    ensures
        e matches SableError::InvalidInput(m) && m@ == msg@,
{
    SableError::InvalidInput(String::from_str(msg))
}

/// Builds a `Cryptographic` error carrying `msg`.
pub fn cryptographic(msg: &str) -> (e: SableError)
    ensures
        e matches SableError::Cryptographic(m) && m@ == msg@,
{
    SableError::Cryptographic(String::from_str(msg))
}

/// Builds a `CryptoError` error carrying `msg`.
pub fn crypto_error(msg: &str) -> (e: SableError)
    ensures
        e matches SableError::CryptoError(m) && m@ == msg@,
{
    SableError::CryptoError(String::from_str(msg))
}

impl SableError {
    /// The human-readable rendering of this error: its kind, then its detail.
    pub fn to_string(&self) -> (s: String)
        ensures
            s@ == match *self {
                SableError::InvalidInput(m) => "Invalid input: "@ + m@,
                SableError::Cryptographic(m) => "Cryptographic error: "@ + m@,
                SableError::RandomGeneration => "Random number generation failed"@,
                SableError::CryptoError(m) => "Crypto error: "@ + m@,
            },
    {
        match self {
            SableError::InvalidInput(m) => {
                let mut s = String::from_str("Invalid input: ");
                s.append(m.as_str());
                s
            },
            SableError::Cryptographic(m) => {
                let mut s = String::from_str("Cryptographic error: ");
                s.append(m.as_str());
                s
            },
            SableError::RandomGeneration => String::from_str("Random number generation failed"),
            SableError::CryptoError(m) => {
                let mut s = String::from_str("Crypto error: ");
                s.append(m.as_str());
                s
            },
        }
    }
}

} // verus!
