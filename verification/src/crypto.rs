//! The single-shot envelope codec.
//!
//! An envelope is `nonce(12) || ciphertext-with-tag`, produced by one
//! AES-256-GCM invocation under a key derived from the password. The string
//! functions additionally carry the envelope as base64 text and require the
//! decrypted bytes to be valid UTF-8.

use vstd::prelude::*;

use crate::base64_encoding;
use crate::config::{spec_params_valid, Config};
use crate::errors::CryptoError;
use crate::key_derivation::{generate_key_from_password, spec_derived_key, KDF_INPUT_MAX};

use aes_gcm::aead::{Aead, KeyInit};
use rand::Rng;

verus! {

use vstd::string::StringSliceAdditionalSpecFns;
use vstd::utf8::{decode_utf8, valid_utf8};

/// Largest plaintext (in bytes) one AES-GCM invocation accepts: 2^36 - 32.
pub const GCM_PLAINTEXT_MAX: u64 = 0xF_FFFF_FFE0;

/// Largest ciphertext-with-tag one AES-GCM invocation accepts: 2^36 - 16.
pub const GCM_CIPHERTEXT_MAX: u64 = 0xF_FFFF_FFF0;

/// Longest base64 text a decryptable envelope can have: four characters for
/// every started group of three bytes of the largest envelope, whose
/// 2^36 - 4 bytes are the largest ciphertext-with-tag plus the nonce.
pub const ENVELOPE_TEXT_MAX: u64 = 91_625_968_976;

/// The ciphertext-with-tag that AES-256-GCM produces for this key, nonce and
/// plaintext; a pure function of its arguments, 16 bytes longer than the
/// plaintext.
pub uninterp spec fn gcm_seal(key: Seq<u8>, nonce: Seq<u8>, plaintext: Seq<u8>) -> Seq<u8>;

/// What AES-256-GCM decryption yields for this key, nonce and
/// ciphertext-with-tag: the plaintext, or `None` when the tag does not
/// verify; a pure function of its arguments.
pub uninterp spec fn gcm_open(key: Seq<u8>, nonce: Seq<u8>, ciphertext: Seq<u8>) -> Option<Seq<u8>>;

/// Whether a password's byte length is accepted by the key derivation.
pub open spec fn spec_password_ok(password: &str) -> bool {
    password.spec_bytes().len() <= KDF_INPUT_MAX
}

/// What decrypting `env` under `key` yields: `None` when `env` cannot even
/// carry a nonce, or when the tag does not verify.
pub open spec fn envelope_plaintext(key: Seq<u8>, env: Seq<u8>) -> Option<Seq<u8>> {
    if env.len() < 12 {
        None
    } else {
        gcm_open(key, env.subrange(0, 12), env.subrange(12, env.len() as int))
    }
}

/// Whether `env` is an envelope for plaintext `pt` under `key`: it opens to
/// `pt` and has exactly the 12-byte nonce and 16-byte tag of overhead.
pub open spec fn spec_envelope_for(key: Seq<u8>, env: Seq<u8>, pt: Seq<u8>) -> bool {
    &&& env.len() == pt.len() + 28
    &&& envelope_plaintext(key, env) == Some(pt)
}

/// Relies on aes_gcm's `Aes256Gcm::new` and `aead::Aead::encrypt` (no
/// associated data): the ciphertext is a pure function of key, nonce and
/// plaintext; it is the plaintext's length plus a 16-byte tag, and
/// decrypting it under the same key and nonce returns the plaintext.
#[verifier::external_body]
pub(crate) fn aes_gcm_seal(key: &[u8; 32], nonce: &[u8], plaintext: &[u8]) -> (r: Vec<u8>)
    requires
        nonce@.len() == 12,
        plaintext@.len() <= GCM_PLAINTEXT_MAX,
    ensures
        r@ == gcm_seal(key@, nonce@, plaintext@),
        r@.len() == plaintext@.len() + 16,
        gcm_open(key@, nonce@, r@) == Some(plaintext@),
{
    let cipher = aes_gcm::Aes256Gcm::new(key.into());
    let nonce_arr = nonce.try_into().unwrap();
    cipher.encrypt(nonce_arr, plaintext).unwrap()
}

/// Relies on aes_gcm's `Aes256Gcm::new` and `aead::Aead::decrypt` (no
/// associated data): returns the plaintext, 16 bytes shorter than the
/// ciphertext, exactly when the authentication tag verifies.
#[verifier::external_body]
pub(crate) fn aes_gcm_open(key: &[u8; 32], nonce: &[u8], ciphertext: &[u8]) -> (r: Result<Vec<u8>, CryptoError>)
    requires
        nonce@.len() == 12,
        ciphertext@.len() <= GCM_CIPHERTEXT_MAX,
    ensures
        r matches Ok(p) ==> gcm_open(key@, nonce@, ciphertext@) == Some(p@),
        r matches Ok(p) ==> p@.len() + 16 == ciphertext@.len(),
        r is Err ==> gcm_open(key@, nonce@, ciphertext@) is None,
        r matches Err(e) ==> e == CryptoError::AuthenticationFailed,
{
    let cipher = aes_gcm::Aes256Gcm::new(key.into());
    let nonce_arr = nonce.try_into().unwrap();
    match cipher.decrypt(nonce_arr, ciphertext) {
        Ok(p) => Ok(p),
        Err(_) => Err(CryptoError::AuthenticationFailed),
    }
}

/// Relies on rand's `rng` and `RngCore::fill_bytes`: fills the buffer with
/// random bytes; nothing is assumed about the values.
#[verifier::external_body]
pub(crate) fn random_bytes(len: usize) -> (r: Vec<u8>)
    ensures
        r@.len() == len,
{
    let mut buf = vec![0u8; len];
    rand::rng().fill_bytes(buf.as_mut_slice());
    buf
}

/// Relies on base64's `general_purpose::STANDARD.decode`: decoding inverts
/// encoding, succeeding exactly on the strings the padded standard alphabet
/// produces and returning the unique preimage, four characters per started
/// group of three bytes.
#[verifier::external_body]
fn base64_decode(text: &str) -> (r: Result<Vec<u8>, CryptoError>)
    ensures
        r matches Ok(d) ==> text@ == base64_encoding(d@),
        r matches Ok(d) ==> forall|other: Seq<u8>| text@ == base64_encoding(other) ==> other == d@,
        r matches Ok(d) ==> text@.len() == 4 * ((d@.len() + 2) / 3),
        r is Err ==> forall|d: Seq<u8>| text@ != base64_encoding(d),
        r matches Err(e) ==> e == CryptoError::MalformedEnvelope,
{
    match base64::Engine::decode(&base64::engine::general_purpose::STANDARD, text) {
        Ok(d) => Ok(d),
        Err(_) => Err(CryptoError::MalformedEnvelope),
    }
}

/// Relies on `String::from_utf8`: succeeds exactly on valid UTF-8, decoding
/// the bytes to the characters they encode.
#[verifier::external_body]
pub(crate) fn utf8_to_string(bytes: Vec<u8>) -> (r: Result<String, CryptoError>)
    ensures
        r matches Ok(s) ==> valid_utf8(bytes@) && s@ == decode_utf8(bytes@),
        r is Err ==> !valid_utf8(bytes@),
        r matches Err(e) ==> e == CryptoError::EncodingError,
{
    match String::from_utf8(bytes) {
        Ok(s) => Ok(s),
        Err(_) => Err(CryptoError::EncodingError),
    }
}

/// Encrypt a byte buffer into a single-shot envelope:
/// `nonce(12) || ciphertext-with-tag`.
///
/// The nonce is fresh and random. Succeeds exactly when the Argon2 costs and
/// the password length are accepted; the envelope opens back to the
/// plaintext under the derived key. Unlike the string codec, this accepts an
/// empty plaintext, since files may be empty.
pub fn encrypt_envelope(plaintext: &[u8], password: &str, config: &Config) -> (r: Result<Vec<u8>, CryptoError>)
    requires
        plaintext@.len() <= GCM_PLAINTEXT_MAX,
    ensures
        r is Ok <==> spec_params_valid(config.argon2) && spec_password_ok(password),
        r matches Ok(env) ==> spec_envelope_for(
            spec_derived_key(password, config.argon2),
            env@,
            plaintext@,
        ),
        r matches Err(e) ==> e == CryptoError::ConfigurationError,
{
    let key = match generate_key_from_password(password, config) {
        Ok(k) => k,
        Err(e) => {
            return Err(e);
        },
    };
    let nonce = random_bytes(12);
    let ciphertext = aes_gcm_seal(&key, nonce.as_slice(), plaintext);
    let mut envelope = nonce;
    envelope.extend_from_slice(ciphertext.as_slice());
    proof {
        assert(envelope@.len() == plaintext@.len() + 28);
        assert(envelope@.subrange(0, 12) =~= nonce@);
        assert(envelope@.subrange(12, envelope@.len() as int) =~= ciphertext@);
    }
    Ok(envelope)
}

/// Decrypt a single-shot envelope back to the plaintext bytes.
///
/// Rejects an envelope shorter than the 12-byte nonce as malformed; reports
/// unacceptable Argon2 costs next; any tag-verification failure — wrong
/// password, wrong costs, or corrupted bytes — is the single undifferentiated
/// `AuthenticationFailed`.
pub fn decrypt_envelope(envelope: &[u8], password: &str, config: &Config) -> (r: Result<Vec<u8>, CryptoError>)
    requires
        envelope@.len() <= GCM_CIPHERTEXT_MAX + 12,
    ensures
        envelope@.len() < 12 ==> (r matches Err(e) && e == CryptoError::MalformedEnvelope),
        envelope@.len() >= 12 && !(spec_params_valid(config.argon2) && spec_password_ok(password))
            ==> (r matches Err(e) && e == CryptoError::ConfigurationError),
        envelope@.len() >= 12 && spec_params_valid(config.argon2) && spec_password_ok(password)
            ==> match envelope_plaintext(spec_derived_key(password, config.argon2), envelope@) {
                Some(pt) => (r matches Ok(v) && v@ == pt),
                None => (r matches Err(e) && e == CryptoError::AuthenticationFailed),
            },
{
    if envelope.len() < 12 {
        return Err(CryptoError::MalformedEnvelope);
    }
    let key = match generate_key_from_password(password, config) {
        Ok(k) => k,
        Err(e) => {
            return Err(e);
        },
    };
    let nonce = vstd::slice::slice_subrange(envelope, 0, 12);
    let ciphertext = vstd::slice::slice_subrange(envelope, 12, envelope.len());
    aes_gcm_open(&key, nonce, ciphertext)
}

/// Encrypt a text into a base64-rendered single-shot envelope.
///
/// An empty text is rejected with `EmptyInput` — the default policy treats
/// it as a usage error rather than encrypting zero bytes. Otherwise succeeds
/// exactly when the Argon2 costs and the password length are accepted, and
/// the returned base64 text encodes an envelope for the text's UTF-8 bytes.
pub fn encrypt_string(text: &str, password: &str, config: &Config) -> (r: Result<String, CryptoError>)
    requires
        text.spec_bytes().len() <= GCM_PLAINTEXT_MAX,
    ensures
        text@.len() == 0 ==> (r matches Err(e) && e == CryptoError::EmptyInput),
        text@.len() != 0 ==> (r is Ok <==> spec_params_valid(config.argon2) && spec_password_ok(
            password,
        )),
        text@.len() != 0 && r is Err ==> (r matches Err(e) && (e == CryptoError::ConfigurationError)),
        r matches Ok(s) ==> exists|env: Seq<u8>|
            spec_envelope_for(spec_derived_key(password, config.argon2), env, text.spec_bytes())
                && s@ == #[trigger] base64_encoding(env),
        r matches Ok(s) ==> s@.len() == 4 * ((text.spec_bytes().len() + 30) / 3),
{
    if text.is_empty() {
        return Err(CryptoError::EmptyInput);
    }
    let envelope = match encrypt_envelope(text.as_bytes(), password, config) {
        Ok(env) => env,
        Err(e) => {
            return Err(e);
        },
    };
    Ok(crate::base64_encode(envelope.as_slice()))
}

/// Decrypt a base64-rendered single-shot envelope back to text.
///
/// Text that is not canonical base64, or whose bytes cannot carry a nonce,
/// is `MalformedEnvelope`; unacceptable Argon2 costs are
/// `ConfigurationError`; a failed tag is `AuthenticationFailed`; decrypted
/// bytes that are not UTF-8 are `EncodingError`. Otherwise the decoded text
/// is returned.
pub fn decrypt_string(encrypted_text: &str, password: &str, config: &Config) -> (r: Result<String, CryptoError>)
    requires
        encrypted_text@.len() <= ENVELOPE_TEXT_MAX,
    ensures
        (forall|d: Seq<u8>| encrypted_text@ != #[trigger] base64_encoding(d)) ==> (r matches Err(
            e,
        ) && e == CryptoError::MalformedEnvelope),
        forall|d: Seq<u8>|
            encrypted_text@ == #[trigger] base64_encoding(d) && d.len() < 12 ==> (r matches Err(
                e,
            ) && e == CryptoError::MalformedEnvelope),
        forall|d: Seq<u8>|
            encrypted_text@ == #[trigger] base64_encoding(d) && d.len() >= 12 && !(
            spec_params_valid(config.argon2) && spec_password_ok(password)) ==> (r matches Err(
                e,
            ) && e == CryptoError::ConfigurationError),
        forall|d: Seq<u8>|
            encrypted_text@ == #[trigger] base64_encoding(d) && d.len() >= 12 && spec_params_valid(
                config.argon2,
            ) && spec_password_ok(password) ==> match envelope_plaintext(
                spec_derived_key(password, config.argon2),
                d,
            ) {
                Some(pt) => if valid_utf8(pt) {
                    (r matches Ok(s) && s@ == decode_utf8(pt))
                } else {
                    (r matches Err(e) && e == CryptoError::EncodingError)
                },
                None => (r matches Err(e) && e == CryptoError::AuthenticationFailed),
            },
{
    let data = match base64_decode(encrypted_text) {
        Ok(d) => d,
        Err(e) => {
            return Err(e);
        },
    };
    proof {
        vstd::arithmetic::div_mod::lemma_fundamental_div_mod(data@.len() as int + 2, 3);
        assert(data@.len() <= GCM_CIPHERTEXT_MAX + 12);
    }
    if data.len() < 12 {
        return Err(CryptoError::MalformedEnvelope);
    }
    let plaintext = match decrypt_envelope(data.as_slice(), password, config) {
        Ok(p) => p,
        Err(e) => {
            return Err(e);
        },
    };
    utf8_to_string(plaintext)
}

/// Law: round trip. An envelope produced for plaintext `pt` under a key —
/// anything satisfying `spec_envelope_for`, as `encrypt_envelope` ensures —
/// meets every guard of `decrypt_envelope`'s success case: it is long
/// enough to carry a nonce and opens to exactly `pt`, so decryption under
/// the same password and costs returns `pt`.
pub proof fn lemma_envelope_round_trip(key: Seq<u8>, env: Seq<u8>, pt: Seq<u8>)
    requires
        spec_envelope_for(key, env, pt),
    ensures
        env.len() >= 12,
        envelope_plaintext(key, env) == Some(pt),
{
}

/// Law: round trip for text. The UTF-8 bytes a text is sealed from are
/// valid UTF-8 and decode back to exactly that text, so decrypting a text's
/// envelope under the same password returns the original text.
pub proof fn lemma_text_round_trip(text: Seq<char>)
    ensures
        valid_utf8(vstd::utf8::encode_utf8(text)),
        decode_utf8(vstd::utf8::encode_utf8(text)) == text,
{
    vstd::utf8::encode_utf8_valid_utf8(text);
    vstd::utf8::encode_utf8_decode_utf8(text);
}

} // verus!
