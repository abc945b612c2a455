//! Turning a password into a 32-byte symmetric key.
//!
//! The key is derived with Argon2id from the password and a 16-byte salt.
//! The salt is itself computed deterministically from the password (a hash
//! of it, laid down twice), so that the decrypting side can rebuild the key
//! without a stored salt: identical password, identical salt, identical key.
//! A deliberate consequence is that the salt adds no protection against
//! precomputation beyond the memory-hard cost itself; a hardened format
//! would store a random salt beside the ciphertext, at the price of a
//! format change.

use vstd::prelude::*;

use crate::config::{spec_params_valid, Argon2Config, Config};
use crate::errors::CryptoError;

verus! {

use vstd::bytes::{spec_u64_to_le_bytes, u64_to_le_bytes};
use vstd::string::StringSliceAdditionalSpecFns;

/// Largest password or salt length (in bytes) that Argon2 accepts.
pub const KDF_INPUT_MAX: usize = 0xFFFF_FFFF;

/// The 64-bit value that `std`'s default hasher assigns to a string; a pure
/// function of the string's characters.
pub uninterp spec fn password_hash64(password: Seq<char>) -> u64;

/// The 32-byte Argon2id (version 0x13) digest of a password and salt under
/// the given memory, time and parallelism costs; a pure function of its
/// arguments.
pub uninterp spec fn argon2id_key(
    password: Seq<u8>,
    salt: Seq<u8>,
    memory_cost: u32,
    time_cost: u32,
    parallelism: u32,
) -> Seq<u8>;

/// Whether Argon2 accepts these password bytes and this salt: the password
/// at most 2^32 - 1 bytes, the salt between 8 and 2^32 - 1 bytes.
pub open spec fn spec_kdf_inputs_ok(password: Seq<u8>, salt: Seq<u8>) -> bool {
    &&& password.len() <= KDF_INPUT_MAX
    &&& 8 <= salt.len() <= KDF_INPUT_MAX
}

/// The salt derived from a password: the password's 64-bit hash as
/// little-endian bytes, laid down twice, for 16 bytes in all.
pub open spec fn spec_salt_of(password: Seq<char>) -> Seq<u8> {
    spec_u64_to_le_bytes(password_hash64(password)) + spec_u64_to_le_bytes(
        password_hash64(password),
    )
}

/// The key Argon2id yields for these password bytes, this salt and these
/// costs.
pub open spec fn spec_argon2_key(password: &str, salt: Seq<u8>, c: Argon2Config) -> Seq<u8> {
    argon2id_key(password.spec_bytes(), salt, c.memory_cost, c.time_cost, c.parallelism)
}

/// The key that `generate_key_from_password` derives for a password under
/// the given costs.
pub open spec fn spec_derived_key(password: &str, c: Argon2Config) -> Seq<u8> {
    spec_argon2_key(password, spec_salt_of(password@), c)
}

/// Relies on `std::collections::hash_map::DefaultHasher` (via `new`,
/// `Hash::hash`, `finish`): hashers made by `new` are documented to be
/// identical, so the result depends on the string alone.
#[verifier::external_body]
fn hash_password_string(password: &str) -> (r: u64)
    ensures
        r == password_hash64(password@),
{
    let mut hasher = std::collections::hash_map::DefaultHasher::new();
    std::hash::Hash::hash(password, &mut hasher);
    std::hash::Hasher::finish(&hasher)
}

/// Relies on argon2's `Params::new`, `Argon2::new` and
/// `Argon2::hash_password_into_with_memory` (Argon2id, version 0x13,
/// 32-byte output): the digest is a pure function of password, salt and
/// costs; `Params::new` rejects exactly the cost combinations outside
/// `spec_params_valid`, and the remaining errors are exactly a password or
/// salt length outside `spec_kdf_inputs_ok`.
#[verifier::external_body]
fn argon2id_derive(password: &str, salt: &[u8], config: &Argon2Config) -> (r: Result<[u8; 32], CryptoError>)
    ensures
        r is Ok ==> spec_params_valid(*config) && spec_kdf_inputs_ok(password.spec_bytes(), salt@),
        r is Err ==> !(spec_params_valid(*config) && spec_kdf_inputs_ok(password.spec_bytes(), salt@)),
        r matches Ok(k) ==> k@ == argon2id_key(password.spec_bytes(), salt@, config.memory_cost, config.time_cost, config.parallelism),
        r matches Err(e) ==> e == CryptoError::ConfigurationError,
{
    let (m, t, p) = (config.memory_cost, config.time_cost, config.parallelism);
    let params = match argon2::Params::new(m, t, p, Some(32)) {
        Ok(p) => p,
        Err(_) => return Err(CryptoError::ConfigurationError),
    };
    let blocks_len = params.block_count();
    let ctx = argon2::Argon2::new(argon2::Algorithm::Argon2id, argon2::Version::V0x13, params);
    let mut blocks = vec![argon2::Block::new(); blocks_len];
    let mut key = [0u8; 32];
    match ctx.hash_password_into_with_memory(password.as_bytes(), salt, &mut key, &mut blocks[..]) {
        Ok(()) => Ok(key),
        Err(_) => Err(CryptoError::ConfigurationError),
    }
}

/// Derive a 32-byte key from a password and a salt with Argon2id.
///
/// Succeeds exactly when the costs and the input lengths are in Argon2's
/// accepted ranges; the key is `argon2id_key` of the inputs.
pub fn derive_key_with_argon2(password: &str, salt: &[u8], config: &Argon2Config) -> (r: Result<[u8; 32], CryptoError>)
    ensures
        r is Ok ==> spec_params_valid(*config) && spec_kdf_inputs_ok(password.spec_bytes(), salt@),
        r is Err ==> !(spec_params_valid(*config) && spec_kdf_inputs_ok(password.spec_bytes(), salt@)),
        r matches Ok(k) ==> k@ == argon2id_key(password.spec_bytes(), salt@, config.memory_cost, config.time_cost, config.parallelism),
        r matches Err(e) ==> e == CryptoError::ConfigurationError,
{
    argon2id_derive(password, salt, config)
}

/// Build the 16-byte salt for a password: its 64-bit hash, as little-endian
/// bytes, laid down twice.
fn password_salt(password: &str) -> (r: Vec<u8>)
    ensures
        r@ == spec_salt_of(password@),
        r@.len() == 16,
{
    let h = hash_password_string(password);
    let mut salt = u64_to_le_bytes(h);
    let second = u64_to_le_bytes(h);
    salt.extend_from_slice(second.as_slice());
    proof {
        vstd::bytes::lemma_auto_spec_u64_to_from_le_bytes();
        assert(salt@ == spec_salt_of(password@));
    }
    salt
}

/// Derive the 32-byte key for a password under `config.argon2`, using the
/// password-derived salt.
///
/// Succeeds exactly when the costs are accepted and the password is at most
/// 2^32 - 1 bytes; the key is `spec_derived_key(password, config.argon2)`.
pub fn generate_key_from_password(password: &str, config: &Config) -> (r: Result<[u8; 32], CryptoError>)
    ensures
        r is Ok ==> spec_params_valid(config.argon2) && password.spec_bytes().len() <= KDF_INPUT_MAX,
        r is Err ==> !(spec_params_valid(config.argon2) && password.spec_bytes().len() <= KDF_INPUT_MAX),
        r matches Ok(k) ==> k@ == spec_derived_key(password, config.argon2),
        r matches Err(e) ==> e == CryptoError::ConfigurationError,
{
    let salt = password_salt(password);
    derive_key_with_argon2(password, salt.as_slice(), &config.argon2)
}

/// Derive a 32-byte key by cycling the password's bytes, with no stretching.
///
/// Kept for compatibility with data written before Argon2 was adopted. An
/// empty password yields the all-zero key.
pub fn generate_key_from_password_legacy(password: &str) -> (r: [u8; 32])
    ensures
        forall|i: int|
            0 <= i < 32 ==> r@[i] == (if password.spec_bytes().len() == 0 {
                0u8
            } else {
                password.spec_bytes()[i % password.spec_bytes().len() as int]
            }),
{
    let bytes = password.as_bytes();
    let mut key = [0u8; 32];
    if bytes.len() == 0 {
        return key;
    }
    let mut i: usize = 0;
    while i < 32
        invariant
            0 <= i <= 32,
            bytes@.len() > 0,
            bytes@ == password.spec_bytes(),
            key@.len() == 32,
            forall|j: int| 0 <= j < i ==> key@[j] == bytes@[j % bytes@.len() as int],
        decreases 32 - i,
    {
        let b = bytes[i % bytes.len()];
        key[i] = b;
        i = i + 1;
    }
    key
}

/// Law: key derivation is deterministic. Two keys derived from the same
/// password, salt and costs are byte-identical.
pub proof fn lemma_derive_key_deterministic(
    k1: Seq<u8>,
    k2: Seq<u8>,
    password: Seq<u8>,
    salt: Seq<u8>,
    c: Argon2Config,
)
    requires
        k1 == argon2id_key(password, salt, c.memory_cost, c.time_cost, c.parallelism),
        k2 == argon2id_key(password, salt, c.memory_cost, c.time_cost, c.parallelism),
    ensures
        k1 == k2,
{
}

} // verus!
