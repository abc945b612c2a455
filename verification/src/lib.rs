//! Password-based authenticated encryption for strings and files.
//!
//! The crate derives a 32-byte key from a password with Argon2id, then
//! protects data with AES-256-GCM, either as a single-shot envelope
//! (`crypto`) or as a chunked streaming container (`file_ops`).

use vstd::prelude::*;

pub mod config;
pub mod crypto;
pub mod errors;
pub mod file_ops;
pub mod key_derivation;

pub use config::{Argon2Config, Config, OutputFormat};
pub use crypto::{decrypt_envelope, decrypt_string, encrypt_envelope, encrypt_string};
pub use errors::CryptoError;
pub use file_ops::{
    decrypt_container, determine_output_path, encrypt_container, StreamDecryptor, StreamEncryptor,
};
pub use key_derivation::{
    derive_key_with_argon2, generate_key_from_password, generate_key_from_password_legacy,
};

verus! {

/// The base64 text (standard alphabet, padded) that encodes `data`.
pub uninterp spec fn base64_encoding(data: Seq<u8>) -> Seq<char>;

/// Relies on base64's `general_purpose::STANDARD.encode`: standard alphabet
/// with padding, so the output is a pure function of the input bytes and
/// has exactly four characters for every started group of three bytes.
#[verifier::external_body]
pub fn base64_encode(data: &[u8]) -> (r: String)
    ensures
        r@ == base64_encoding(data@),
        r@.len() == 4 * ((data@.len() + 2) / 3),
{
    base64::Engine::encode(&base64::engine::general_purpose::STANDARD, data)
}

} // verus!
