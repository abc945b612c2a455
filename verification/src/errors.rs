//! The error taxonomy shared by every operation of the crate.

use vstd::prelude::*;

verus! {

/// Why an encryption or decryption call failed.
///
/// Tag-verification failures are reported as the single variant
/// `AuthenticationFailed`, whether the password was wrong or the data was
/// corrupted, so that callers cannot be used as an oracle to tell the two
/// apart.
#[derive(Clone, Copy, Debug, PartialEq, Eq, Structural)]
pub enum CryptoError {
    /// The key-derivation parameters (or the salt) are outside the ranges
    /// Argon2 accepts; detected before any cryptographic work.
    ConfigurationError,
    /// The plaintext handed to the string codec was empty, which the default
    /// policy treats as a usage error.
    EmptyInput,
    /// A single-shot envelope is structurally unusable: not valid base64, or
    /// shorter than the 12-byte nonce.
    MalformedEnvelope,
    /// A streaming container does not begin with the expected magic bytes.
    InvalidFormat,
    /// A streaming container is shorter than the smallest valid container.
    MalformedContainer,
    /// A streaming container ends strictly inside a chunk's header or
    /// ciphertext.
    TruncatedContainer,
    /// An authentication tag did not verify: wrong password, wrong
    /// parameters, or corrupted data.
    AuthenticationFailed,
    /// Decrypted bytes were required to be text but are not valid UTF-8.
    EncodingError,
    /// An input path has no usable file name from which to derive an output
    /// path.
    InvalidPath,
}

impl CryptoError {
    /// A short stable description, usable in place of `Display`.
    pub fn message(&self) -> (r: &'static str)
        ensures
            r@.len() > 0,
    {
        let m: &'static str = match self {
            CryptoError::ConfigurationError => "invalid key-derivation parameters",
            CryptoError::EmptyInput => "input is empty",
            CryptoError::MalformedEnvelope => "malformed envelope",
            CryptoError::InvalidFormat => "invalid container format",
            CryptoError::MalformedContainer => "malformed container",
            CryptoError::TruncatedContainer => "truncated container",
            CryptoError::AuthenticationFailed => "authentication failed",
            CryptoError::EncodingError => "decrypted data is not valid text",
            CryptoError::InvalidPath => "invalid file name",
        };
        proof {
            reveal_strlit("invalid key-derivation parameters");
            reveal_strlit("input is empty");
            reveal_strlit("malformed envelope");
            reveal_strlit("invalid container format");
            reveal_strlit("malformed container");
            reveal_strlit("truncated container");
            reveal_strlit("authentication failed");
            reveal_strlit("decrypted data is not valid text");
            reveal_strlit("invalid file name");
        }
        m
    }
}

} // verus!
