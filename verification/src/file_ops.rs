//! The streaming chunked container codec, and the output-path policy.
//!
//! A container is `magic(9) || chunk_size:u32-LE || chunk*`, where each
//! chunk is `nonce(12) || len:u32-LE || ciphertext-with-tag(len)`. Plaintext
//! is split into 64 KiB chunks (the final chunk may be shorter), each sealed
//! independently under the shared key. Each chunk's nonce is the 8-byte
//! little-endian chunk counter followed by 4 random bytes, so no two chunks
//! of one container share a nonce even if the random parts collide.

use vstd::prelude::*;

use crate::config::{spec_params_valid, Config};
use crate::crypto::{gcm_open, spec_password_ok};
use crate::errors::CryptoError;
use crate::key_derivation::{generate_key_from_password, spec_derived_key};

verus! {

use vstd::bytes::{
    spec_u32_from_le_bytes, spec_u32_to_le_bytes, spec_u64_to_le_bytes, u32_from_le_bytes,
    u32_to_le_bytes, u64_to_le_bytes,
};
use vstd::string::StringSliceAdditionalSpecFns;

/// Plaintext bytes per chunk: 64 KiB, except possibly the final chunk.
pub const CHUNK_SIZE: usize = 65536;

/// Container bytes a chunk occupies beyond its plaintext: 12 nonce bytes, a
/// 4-byte length field and a 16-byte tag.
pub const CHUNK_OVERHEAD: usize = 32;

/// Length of the container header: the 9 magic bytes and the chunk size.
pub const CONTAINER_HEADER_LEN: usize = 13;

/// The smallest container that holds at least one chunk: a header plus one
/// chunk of empty plaintext. The only valid container below this length is
/// the bare header itself, which carries an empty plaintext.
pub const CONTAINER_MIN_LEN: usize = 33;

/// The magic bytes `GCMSTREAM` that open every container.
pub open spec fn spec_stream_magic() -> Seq<u8> {
    seq![71u8, 67u8, 77u8, 83u8, 84u8, 82u8, 69u8, 65u8, 77u8]
}

/// The 13-byte container header: magic, then the chunk size.
pub open spec fn spec_container_header() -> Seq<u8> {
    spec_stream_magic() + spec_u32_to_le_bytes(65536)
}

/// How many chunks a plaintext of `len` bytes is split into.
pub open spec fn spec_num_chunks(len: int) -> int {
    if len == 0 {
        0
    } else {
        (len - 1) / 65536 + 1
    }
}

/// How many plaintext bytes chunk `j` of a `len`-byte plaintext carries:
/// a full 64 KiB for every chunk but the last, the remainder for the last.
pub open spec fn spec_chunk_pt_len(len: int, j: int) -> int {
    if len - j * 65536 >= 65536 {
        65536
    } else {
        len - j * 65536
    }
}

/// What parsing a container body (everything after the header) yields.
pub enum ChunksOutcome {
    /// The body ends strictly inside a chunk's header or ciphertext.
    Truncated,
    /// A chunk's authentication tag did not verify.
    AuthFailed,
    /// Every chunk verified; the concatenated plaintext.
    Complete(Seq<u8>),
}

/// Parse a container body under `key`: read each chunk's nonce, length and
/// ciphertext in order, open it, and concatenate the plaintexts. Stops at
/// the first failure; a short read anywhere inside a chunk is `Truncated`.
pub open spec fn parse_chunks(key: Seq<u8>, body: Seq<u8>) -> ChunksOutcome
    decreases body.len(),
{
    if body.len() == 0 {
        ChunksOutcome::Complete(Seq::empty())
    } else if body.len() < 16 {
        ChunksOutcome::Truncated
    } else {
        let nonce = body.subrange(0, 12);
        let clen = spec_u32_from_le_bytes(body.subrange(12, 16)) as int;
        if body.len() < 16 + clen {
            ChunksOutcome::Truncated
        } else {
            match gcm_open(key, nonce, body.subrange(16, 16 + clen)) {
                Option::None => ChunksOutcome::AuthFailed,
                Option::Some(pt) => match parse_chunks(
                    key,
                    body.subrange(16 + clen, body.len() as int),
                ) {
                    ChunksOutcome::Complete(rest) => ChunksOutcome::Complete(pt + rest),
                    o => o,
                },
            }
        }
    }
}

/// `o` with `prefix` prepended to its plaintext, when it has one.
pub open spec fn chunks_prepend(prefix: Seq<u8>, o: ChunksOutcome) -> ChunksOutcome {
    match o {
        ChunksOutcome::Complete(rest) => ChunksOutcome::Complete(prefix + rest),
        _ => o,
    }
}

/// Parsing is compositional: a body that parses completely, followed by
/// anything, parses as the rest does, with the body's plaintext in front.
pub proof fn lemma_parse_chunks_concat(key: Seq<u8>, body: Seq<u8>, rest: Seq<u8>)
    requires
        parse_chunks(key, body) is Complete,
    ensures
        parse_chunks(key, body + rest) == chunks_prepend(
            parse_chunks(key, body)->Complete_0,
            parse_chunks(key, rest),
        ),
    decreases body.len(),
{
    if body.len() == 0 {
        assert(body + rest =~= rest);
        match parse_chunks(key, rest) {
            ChunksOutcome::Complete(r) => {
                assert(Seq::<u8>::empty() + r =~= r);
            },
            _ => {},
        }
    } else {
        let clen = spec_u32_from_le_bytes(body.subrange(12, 16)) as int;
        let whole = body + rest;
        assert(whole.subrange(0, 12) =~= body.subrange(0, 12));
        assert(whole.subrange(12, 16) =~= body.subrange(12, 16));
        assert(whole.subrange(16, 16 + clen) =~= body.subrange(16, 16 + clen));
        let tail = body.subrange(16 + clen, body.len() as int);
        assert(whole.subrange(16 + clen, whole.len() as int) =~= tail + rest);
        lemma_parse_chunks_concat(key, tail, rest);
        let pt = gcm_open(key, body.subrange(0, 12), body.subrange(16, 16 + clen))->Some_0;
        let tv = parse_chunks(key, tail)->Complete_0;
        match parse_chunks(key, rest) {
            ChunksOutcome::Complete(r) => {
                assert(pt + (tv + r) =~= (pt + tv) + r);
            },
            _ => {},
        }
    }
}

/// The per-chunk encryption state of one streaming pass: the derived key and
/// the monotonically increasing chunk counter.
#[derive(Debug)]
pub struct StreamEncryptor {
    key: [u8; 32],
    counter: u64,
}

impl StreamEncryptor {
    /// The derived key this pass seals under.
    pub closed spec fn spec_key(&self) -> Seq<u8> {
        self.key@
    }

    /// How many chunks have been sealed so far.
    pub closed spec fn spec_counter(&self) -> u64 {
        self.counter
    }

    /// Start a streaming pass: derive the key once, with the chunk counter
    /// at zero. Succeeds exactly when the Argon2 costs and the password
    /// length are accepted.
    pub fn new(password: &str, config: &Config) -> (r: Result<StreamEncryptor, CryptoError>)
        ensures
            r is Ok <==> spec_params_valid(config.argon2) && spec_password_ok(password),
            r matches Ok(s) ==> s.spec_key() == spec_derived_key(password, config.argon2)
                && s.spec_counter() == 0,
            r matches Err(e) ==> e == CryptoError::ConfigurationError,
    {
        let key = match generate_key_from_password(password, config) {
            Ok(k) => k,
            Err(e) => {
                return Err(e);
            },
        };
        Ok(StreamEncryptor { key, counter: 0 })
    }

    /// The 13-byte header every container starts with.
    pub fn container_header() -> (r: Vec<u8>)
        ensures
            r@ == spec_container_header(),
            r@.len() == 13,
    {
        let mut header: Vec<u8> = Vec::new();
        header.push(71);
        header.push(67);
        header.push(77);
        header.push(83);
        header.push(84);
        header.push(82);
        header.push(69);
        header.push(65);
        header.push(77);
        let size = u32_to_le_bytes(65536);
        header.extend_from_slice(size.as_slice());
        proof {
            assert(header@ =~= spec_container_header());
        }
        header
    }

    /// Seal the next plaintext chunk into one framed container chunk.
    ///
    /// The nonce is the little-endian chunk counter followed by 4 random
    /// bytes; the counter then advances. The frame parses back to exactly
    /// this chunk under the same key.
    pub fn encrypt_chunk(&mut self, chunk: &[u8]) -> (r: Vec<u8>)
        requires
            chunk@.len() <= CHUNK_SIZE,
            old(self).spec_counter() < u64::MAX,
        ensures
            final(self).spec_key() == old(self).spec_key(),
            final(self).spec_counter() == old(self).spec_counter() + 1,
            r@.len() == chunk@.len() + CHUNK_OVERHEAD,
            r@.subrange(0, 8) == spec_u64_to_le_bytes(old(self).spec_counter()),
            r@.subrange(12, 16) == spec_u32_to_le_bytes((chunk@.len() + 16) as u32),
            parse_chunks(old(self).spec_key(), r@) == ChunksOutcome::Complete(chunk@),
    {
        let mut nonce = u64_to_le_bytes(self.counter);
        let random_part = crate::crypto::random_bytes(4);
        nonce.extend_from_slice(random_part.as_slice());
        let ghost nonce_seq = nonce@;
        let ciphertext = crate::crypto::aes_gcm_seal(&self.key, nonce.as_slice(), chunk);
        let mut frame = nonce;
        let len_field = u32_to_le_bytes(ciphertext.len() as u32);
        frame.extend_from_slice(len_field.as_slice());
        frame.extend_from_slice(ciphertext.as_slice());
        self.counter = self.counter + 1;
        proof {
            vstd::bytes::lemma_auto_spec_u32_to_from_le_bytes();
            let f = frame@;
            assert(f.len() == chunk@.len() + 32);
            assert(f.subrange(0, 8) =~= spec_u64_to_le_bytes(old(self).spec_counter()));
            assert(f.subrange(0, 12) =~= nonce_seq);
            let clen = spec_u32_from_le_bytes(f.subrange(12, 16)) as int;
            assert(f.subrange(12, 16) =~= spec_u32_to_le_bytes(ciphertext@.len() as u32));
            assert(clen == ciphertext@.len());
            assert(f.subrange(16, 16 + clen) =~= ciphertext@);
            assert(f.subrange(16 + clen, f.len() as int) =~= Seq::<u8>::empty());
            assert(gcm_open(old(self).spec_key(), f.subrange(0, 12), f.subrange(16, 16 + clen))
                == Some(chunk@));
            assert(parse_chunks(old(self).spec_key(), f.subrange(16 + clen, f.len() as int))
                == ChunksOutcome::Complete(Seq::<u8>::empty()));
            assert(chunk@ + Seq::<u8>::empty() =~= chunk@);
            assert(parse_chunks(old(self).spec_key(), f) == ChunksOutcome::Complete(chunk@));
        }
        frame
    }
}

/// The per-chunk decryption state of one streaming pass: the derived key.
#[derive(Debug)]
pub struct StreamDecryptor {
    key: [u8; 32],
}

impl StreamDecryptor {
    /// The derived key this pass opens under.
    pub closed spec fn spec_key(&self) -> Seq<u8> {
        self.key@
    }

    /// Start a streaming decryption pass: derive the key once. Succeeds
    /// exactly when the Argon2 costs and the password length are accepted.
    pub fn new(password: &str, config: &Config) -> (r: Result<StreamDecryptor, CryptoError>)
        ensures
            r is Ok <==> spec_params_valid(config.argon2) && spec_password_ok(password),
            r matches Ok(s) ==> s.spec_key() == spec_derived_key(password, config.argon2),
            r matches Err(e) ==> e == CryptoError::ConfigurationError,
    {
        let key = match generate_key_from_password(password, config) {
            Ok(k) => k,
            Err(e) => {
                return Err(e);
            },
        };
        Ok(StreamDecryptor { key })
    }

    /// Open one chunk read from a container: succeeds, with the chunk's
    /// plaintext, exactly when the tag verifies under this pass's key.
    pub fn decrypt_chunk(&self, nonce: &[u8], ciphertext: &[u8]) -> (r: Result<Vec<u8>, CryptoError>)
        requires
            nonce@.len() == 12,
            ciphertext@.len() <= crate::crypto::GCM_CIPHERTEXT_MAX,
        ensures
            r matches Ok(p) ==> gcm_open(self.spec_key(), nonce@, ciphertext@) == Some(p@),
            r matches Ok(p) ==> p@.len() + 16 == ciphertext@.len(),
            r is Err ==> gcm_open(self.spec_key(), nonce@, ciphertext@) is None,
            r matches Err(e) ==> e == CryptoError::AuthenticationFailed,
    {
        crate::crypto::aes_gcm_open(&self.key, nonce, ciphertext)
    }
}

/// Encrypt a whole byte buffer into a streaming container.
///
/// The buffer is split into 64 KiB chunks (the final chunk may be shorter;
/// an empty buffer yields a bare header with no chunks), each sealed under
/// the derived key with the counter-plus-random nonce discipline. Succeeds
/// exactly when the Argon2 costs and the password length are accepted. The
/// container's body parses back to exactly the plaintext under the derived
/// key, and the nonce of chunk `j` begins with `j` in little-endian.
pub fn encrypt_container(plaintext: &[u8], password: &str, config: &Config) -> (r: Result<Vec<u8>, CryptoError>)
    requires
        plaintext@.len() <= 0x1000_0000_0000,
    ensures
        r is Ok <==> spec_params_valid(config.argon2) && spec_password_ok(password),
        r matches Err(e) ==> e == CryptoError::ConfigurationError,
        r matches Ok(out) ==> out@.len() == 13 + plaintext@.len() + 32 * spec_num_chunks(
            plaintext@.len() as int,
        ),
        r matches Ok(out) ==> out@.subrange(0, 13) == spec_container_header(),
        r matches Ok(out) ==> parse_chunks(
            spec_derived_key(password, config.argon2),
            out@.subrange(13, out@.len() as int),
        ) == ChunksOutcome::Complete(plaintext@),
        r matches Ok(out) ==> forall|j: int|
            0 <= j < spec_num_chunks(plaintext@.len() as int) ==> #[trigger] out@.subrange(
                13 + j * 65568,
                13 + j * 65568 + 8,
            ) == spec_u64_to_le_bytes(j as u64),
        r matches Ok(out) ==> forall|j: int|
            0 <= j < spec_num_chunks(plaintext@.len() as int) ==> #[trigger] out@.subrange(
                13 + j * 65568 + 12,
                13 + j * 65568 + 16,
            ) == spec_u32_to_le_bytes((spec_chunk_pt_len(plaintext@.len() as int, j) + 16) as u32),
{
    let mut enc = match StreamEncryptor::new(password, config) {
        Ok(s) => s,
        Err(e) => {
            return Err(e);
        },
    };
    let ghost key = enc.spec_key();
    let mut out = StreamEncryptor::container_header();
    proof {
        assert(out@.subrange(13, out@.len() as int) =~= Seq::<u8>::empty());
        assert(plaintext@.subrange(0, 0) =~= Seq::<u8>::empty());
        assert(out@.subrange(0, 13) =~= spec_container_header());
    }
    let mut offset: usize = 0;
    while offset < plaintext.len()
        invariant
            plaintext@.len() <= 0x1000_0000_0000,
            offset <= plaintext@.len(),
            enc.spec_key() == key,
            key == spec_derived_key(password, config.argon2),
            offset == enc.spec_counter() as int * 65536 || (offset == plaintext@.len()
                && enc.spec_counter() as int == spec_num_chunks(plaintext@.len() as int)),
            out@.len() == 13 + offset + 32 * enc.spec_counter() as int,
            out@.subrange(0, 13) == spec_container_header(),
            parse_chunks(key, out@.subrange(13, out@.len() as int)) == ChunksOutcome::Complete(
                plaintext@.subrange(0, offset as int),
            ),
            forall|j: int|
                0 <= j < enc.spec_counter() ==> #[trigger] out@.subrange(
                    13 + j * 65568,
                    13 + j * 65568 + 8,
                ) == spec_u64_to_le_bytes(j as u64),
            forall|j: int|
                0 <= j < enc.spec_counter() ==> #[trigger] out@.subrange(
                    13 + j * 65568 + 12,
                    13 + j * 65568 + 16,
                ) == spec_u32_to_le_bytes((spec_chunk_pt_len(plaintext@.len() as int, j) + 16) as u32),
        decreases plaintext@.len() - offset,
    {
        let remaining = plaintext.len() - offset;
        let clen = if remaining >= CHUNK_SIZE {
            CHUNK_SIZE
        } else {
            remaining
        };
        let ghost c0 = enc.spec_counter() as int;
        let ghost out0 = out@;
        proof {
            assert(offset == c0 * 65536);
            assert(c0 <= 0x1_0000_0000) by (nonlinear_arith)
                requires
                    c0 * 65536 == offset as int,
                    0 <= offset as int <= 0x1000_0000_0000,
            ;
        }
        let chunk = vstd::slice::slice_subrange(plaintext, offset, offset + clen);
        let frame = enc.encrypt_chunk(chunk);
        out.extend_from_slice(frame.as_slice());
        offset = offset + clen;
        proof {
            let body0 = out0.subrange(13, out0.len() as int);
            lemma_parse_chunks_concat(key, body0, frame@);
            assert(out@.subrange(13, out@.len() as int) =~= body0 + frame@);
            assert(plaintext@.subrange(0, offset as int) =~= plaintext@.subrange(
                0,
                offset - clen,
            ) + chunk@);
            assert(out@.subrange(0, 13) =~= out0.subrange(0, 13));
            assert(13 + c0 * 65568 == out0.len());
            assert forall|j: int| 0 <= j < enc.spec_counter() implies #[trigger] out@.subrange(
                13 + j * 65568,
                13 + j * 65568 + 8,
            ) == spec_u64_to_le_bytes(j as u64) by {
                if j < c0 {
                    assert(13 + j * 65568 + 8 <= out0.len()) by (nonlinear_arith)
                        requires
                            0 <= j <= c0 - 1,
                            out0.len() == 13 + c0 * 65568,
                    ;
                    assert(out@.subrange(13 + j * 65568, 13 + j * 65568 + 8) =~= out0.subrange(
                        13 + j * 65568,
                        13 + j * 65568 + 8,
                    ));
                } else {
                    assert(j == c0);
                    assert(out@.subrange(13 + j * 65568, 13 + j * 65568 + 8) =~= frame@.subrange(
                        0,
                        8,
                    ));
                }
            }
            assert forall|j: int| 0 <= j < enc.spec_counter() implies #[trigger] out@.subrange(
                13 + j * 65568 + 12,
                13 + j * 65568 + 16,
            ) == spec_u32_to_le_bytes(
                (spec_chunk_pt_len(plaintext@.len() as int, j) + 16) as u32,
            ) by {
                if j < c0 {
                    assert(13 + j * 65568 + 16 <= out0.len()) by (nonlinear_arith)
                        requires
                            0 <= j <= c0 - 1,
                            out0.len() == 13 + c0 * 65568,
                    ;
                    assert(out@.subrange(13 + j * 65568 + 12, 13 + j * 65568 + 16)
                        =~= out0.subrange(13 + j * 65568 + 12, 13 + j * 65568 + 16));
                } else {
                    assert(j == c0);
                    assert(chunk@.len() == spec_chunk_pt_len(plaintext@.len() as int, c0));
                    assert(out@.subrange(13 + j * 65568 + 12, 13 + j * 65568 + 16)
                        =~= frame@.subrange(12, 16));
                }
            }
            if offset == plaintext@.len() {
                assert(c0 * 65536 <= plaintext@.len() - 1 < c0 * 65536 + 65536);
                assert((plaintext@.len() - 1) / 65536 == c0) by (nonlinear_arith)
                    requires
                        c0 * 65536 <= plaintext@.len() - 1 < c0 * 65536 + 65536,
                ;
            }
        }
    }
    proof {
        assert(offset == plaintext@.len());
        if enc.spec_counter() as int * 65536 == offset {
            let c = enc.spec_counter() as int;
            if plaintext@.len() == 0 {
                assert(c == 0);
            } else {
                assert((plaintext@.len() - 1) / 65536 == c - 1) by (nonlinear_arith)
                    requires
                        c * 65536 == plaintext@.len() as int,
                        plaintext@.len() as int >= 1,
                ;
            }
        }
        assert(enc.spec_counter() as int == spec_num_chunks(plaintext@.len() as int));
        assert(plaintext@.subrange(0, plaintext@.len() as int) =~= plaintext@);
    }
    Ok(out)
}

/// Decrypt a streaming container back to the whole plaintext.
///
/// A bare 13-byte header is the empty container and decrypts to an empty
/// output. Anything else shorter than the smallest one-chunk container is
/// `MalformedContainer`; a wrong magic is `InvalidFormat`; unacceptable
/// Argon2 costs are `ConfigurationError`. Chunks are then read and opened in
/// order: a body that ends inside a chunk is `TruncatedContainer`, and the
/// first chunk whose tag fails stops everything with `AuthenticationFailed`
/// — later chunks are never attempted.
pub fn decrypt_container(data: &[u8], password: &str, config: &Config) -> (r: Result<Vec<u8>, CryptoError>)
    ensures
        data@.len() < 33 && data@.len() != 13 ==> (r matches Err(e) && e
            == CryptoError::MalformedContainer),
        (data@.len() >= 33 || data@.len() == 13) && data@.subrange(0, 9) != spec_stream_magic()
            ==> (r matches Err(e) && e == CryptoError::InvalidFormat),
        (data@.len() >= 33 || data@.len() == 13) && data@.subrange(0, 9) == spec_stream_magic()
            && !(spec_params_valid(config.argon2) && spec_password_ok(password)) ==> (r matches Err(
            e,
        ) && e == CryptoError::ConfigurationError),
        (data@.len() >= 33 || data@.len() == 13) && data@.subrange(0, 9) == spec_stream_magic()
            && spec_params_valid(config.argon2) && spec_password_ok(password) ==> match parse_chunks(
            spec_derived_key(password, config.argon2),
            data@.subrange(13, data@.len() as int),
        ) {
            ChunksOutcome::Truncated => (r matches Err(e) && e == CryptoError::TruncatedContainer),
            ChunksOutcome::AuthFailed => (r matches Err(e) && e
                == CryptoError::AuthenticationFailed),
            ChunksOutcome::Complete(pt) => (r matches Ok(v) && v@ == pt),
        },
{
    if data.len() < CONTAINER_MIN_LEN && data.len() != CONTAINER_HEADER_LEN {
        return Err(CryptoError::MalformedContainer);
    }
    let header = StreamEncryptor::container_header();
    let mut k: usize = 0;
    while k < 9
        invariant
            0 <= k <= 9,
            data@.len() >= 33 || data@.len() == 13,
            header@ == spec_container_header(),
            forall|t: int| 0 <= t < k ==> data@[t] == spec_stream_magic()[t],
        decreases 9 - k,
    {
        if data[k] != header[k] {
            proof {
                assert(data@.subrange(0, 9)[k as int] != spec_stream_magic()[k as int]);
            }
            return Err(CryptoError::InvalidFormat);
        }
        k = k + 1;
    }
    proof {
        assert(data@.subrange(0, 9) =~= spec_stream_magic());
    }
    let dec = match StreamDecryptor::new(password, config) {
        Ok(d) => d,
        Err(e) => {
            return Err(e);
        },
    };
    let ghost key = dec.spec_key();
    let ghost body = data@.subrange(13, data@.len() as int);
    let mut out: Vec<u8> = Vec::new();
    let mut pos: usize = 13;
    proof {
        assert(parse_chunks(key, body) == chunks_prepend(
            out@,
            parse_chunks(key, data@.subrange(13, data@.len() as int)),
        ));
    }
    while pos < data.len()
        invariant
            13 <= pos <= data@.len(),
            data@.len() >= 33 || data@.len() == 13,
            data@.subrange(0, 9) == spec_stream_magic(),
            spec_params_valid(config.argon2) && spec_password_ok(password),
            dec.spec_key() == key,
            key == spec_derived_key(password, config.argon2),
            body == data@.subrange(13, data@.len() as int),
            parse_chunks(key, body) == chunks_prepend(
                out@,
                parse_chunks(key, data@.subrange(pos as int, data@.len() as int)),
            ),
        decreases data@.len() - pos,
    {
        let ghost rem = data@.subrange(pos as int, data@.len() as int);
        if data.len() - pos < 16 {
            proof {
                assert(parse_chunks(key, rem) == ChunksOutcome::Truncated);
            }
            return Err(CryptoError::TruncatedContainer);
        }
        let len_field = vstd::slice::slice_subrange(data, pos + 12, pos + 16);
        let clen = u32_from_le_bytes(len_field) as usize;
        proof {
            assert(rem.subrange(12, 16) =~= len_field@);
        }
        if data.len() - (pos + 16) < clen {
            proof {
                assert(parse_chunks(key, rem) == ChunksOutcome::Truncated);
            }
            return Err(CryptoError::TruncatedContainer);
        }
        let nonce = vstd::slice::slice_subrange(data, pos, pos + 12);
        let ciphertext = vstd::slice::slice_subrange(data, pos + 16, pos + 16 + clen);
        proof {
            assert(rem.subrange(0, 12) =~= nonce@);
            assert(rem.subrange(16, 16 + clen as int) =~= ciphertext@);
        }
        let chunk = match dec.decrypt_chunk(nonce, ciphertext) {
            Ok(c) => c,
            Err(e) => {
                proof {
                    assert(parse_chunks(key, rem) == ChunksOutcome::AuthFailed);
                }
                return Err(e);
            },
        };
        let ghost out0 = out@;
        out.extend_from_slice(chunk.as_slice());
        let ghost oldpos = pos as int;
        pos = pos + 16 + clen;
        proof {
            let rem2 = data@.subrange(pos as int, data@.len() as int);
            assert(rem.subrange(16 + clen as int, rem.len() as int) =~= rem2);
            assert(parse_chunks(key, rem) == chunks_prepend(chunk@, parse_chunks(key, rem2)));
            match parse_chunks(key, rem2) {
                ChunksOutcome::Complete(r2) => {
                    assert(out0 + (chunk@ + r2) =~= out@ + r2);
                },
                _ => {},
            }
        }
    }
    proof {
        assert(data@.subrange(pos as int, data@.len() as int) =~= Seq::<u8>::empty());
        assert(parse_chunks(key, data@.subrange(pos as int, data@.len() as int))
            == ChunksOutcome::Complete(Seq::<u8>::empty()));
        assert(out@ + Seq::<u8>::empty() =~= out@);
    }
    Ok(out)
}

/// Law: no two chunks of one container share a nonce. Chunk `t`'s 12-byte
/// nonce begins with `t` in little-endian (as `encrypt_container` ensures),
/// and distinct counters give distinct prefixes, so the nonces themselves
/// are pairwise distinct.
pub proof fn lemma_nonce_uniqueness(out: Seq<u8>, n: int, i: int, j: int)
    requires
        forall|t: int|
            0 <= t < n ==> #[trigger] out.subrange(13 + t * 65568, 13 + t * 65568 + 8)
                == spec_u64_to_le_bytes(t as u64),
        0 <= i < j < n,
        n <= 0xFFFF_FFFF_FFFF_FFFF,
        out.len() >= 13 + (n - 1) * 65568 + 12,
    ensures
        out.subrange(13 + i * 65568, 13 + i * 65568 + 12) != out.subrange(
            13 + j * 65568,
            13 + j * 65568 + 12,
        ),
{
    vstd::bytes::lemma_auto_spec_u64_to_from_le_bytes();
    let ni = out.subrange(13 + i * 65568, 13 + i * 65568 + 12);
    let nj = out.subrange(13 + j * 65568, 13 + j * 65568 + 12);
    assert(13 + i * 65568 + 12 <= out.len() && 13 + j * 65568 + 12 <= out.len())
        by (nonlinear_arith)
        requires
            0 <= i < j < n,
            out.len() >= 13 + (n - 1) * 65568 + 12,
    ;
    assert(ni.subrange(0, 8) =~= out.subrange(13 + i * 65568, 13 + i * 65568 + 8));
    assert(nj.subrange(0, 8) =~= out.subrange(13 + j * 65568, 13 + j * 65568 + 8));
    if ni == nj {
        assert(ni.subrange(0, 8) == nj.subrange(0, 8));
        assert(spec_u64_to_le_bytes(i as u64) == spec_u64_to_le_bytes(j as u64));
        assert(vstd::bytes::spec_u64_from_le_bytes(spec_u64_to_le_bytes(i as u64)) == i as u64);
        assert(i as u64 == j as u64);
        assert(false);
    }
}

/// Whether `k` bytes into a container body lands exactly between two chunks
/// (or at its very start or end).
pub open spec fn is_chunk_boundary(body: Seq<u8>, k: int) -> bool
    decreases body.len(),
{
    k == 0 || (body.len() >= 16 && {
        let clen = spec_u32_from_le_bytes(body.subrange(12, 16)) as int;
        &&& body.len() >= 16 + clen
        &&& k >= 16 + clen
        &&& is_chunk_boundary(body.subrange(16 + clen, body.len() as int), k - (16 + clen))
    })
}

/// Law: truncation is detected. Cutting a completely-parsing container body
/// at any point strictly inside a chunk's header or ciphertext — that is,
/// anywhere but a chunk boundary — makes the prefix parse `Truncated`, so
/// decryption fails rather than returning wrong data.
pub proof fn lemma_truncation_detected(key: Seq<u8>, body: Seq<u8>, k: int)
    requires
        parse_chunks(key, body) is Complete,
        0 <= k < body.len(),
        !is_chunk_boundary(body, k),
    ensures
        parse_chunks(key, body.subrange(0, k)) == ChunksOutcome::Truncated,
    decreases body.len(),
{
    let prefix = body.subrange(0, k);
    assert(body.len() >= 16);
    let clen = spec_u32_from_le_bytes(body.subrange(12, 16)) as int;
    assert(body.len() >= 16 + clen);
    if k < 16 {
        assert(prefix.len() == k);
        assert(k != 0);
        assert(parse_chunks(key, prefix) == ChunksOutcome::Truncated);
    } else if k < 16 + clen {
        assert(prefix.subrange(12, 16) =~= body.subrange(12, 16));
        assert(parse_chunks(key, prefix) == ChunksOutcome::Truncated);
    } else {
        let tail = body.subrange(16 + clen, body.len() as int);
        assert(parse_chunks(key, tail) is Complete);
        assert(!is_chunk_boundary(tail, k - (16 + clen)));
        lemma_truncation_detected(key, tail, k - (16 + clen));
        assert(prefix.subrange(0, 12) =~= body.subrange(0, 12));
        assert(prefix.subrange(12, 16) =~= body.subrange(12, 16));
        assert(prefix.subrange(16, 16 + clen) =~= body.subrange(16, 16 + clen));
        assert(prefix.subrange(16 + clen, prefix.len() as int) =~= tail.subrange(
            0,
            k - (16 + clen),
        ));
        assert(parse_chunks(key, prefix) == ChunksOutcome::Truncated);
    }
}

/// The index just past the last path separator in `b`, or 0 when there is
/// none: where the file-name part of the path begins.
pub open spec fn spec_last_slash_end(b: Seq<u8>) -> int
    decreases b.len(),
{
    if b.len() == 0 {
        0
    } else if b[b.len() - 1] == 47u8 {
        b.len() as int
    } else {
        spec_last_slash_end(b.subrange(0, b.len() - 1))
    }
}

/// The index of the last `.` in a file name, or -1 when there is none.
pub open spec fn spec_last_dot(fp: Seq<u8>) -> int
    decreases fp.len(),
{
    if fp.len() == 0 {
        -1
    } else if fp[fp.len() - 1] == 46u8 {
        fp.len() - 1
    } else {
        spec_last_dot(fp.subrange(0, fp.len() - 1))
    }
}

pub proof fn lemma_last_slash_end_bounds(b: Seq<u8>)
    ensures
        0 <= spec_last_slash_end(b) <= b.len(),
    decreases b.len(),
{
    if b.len() != 0 && b[b.len() - 1] != 47u8 {
        lemma_last_slash_end_bounds(b.subrange(0, b.len() - 1));
    }
}

pub proof fn lemma_last_dot_bounds(fp: Seq<u8>)
    ensures
        -1 <= spec_last_dot(fp) < fp.len(),
    decreases fp.len(),
{
    if fp.len() != 0 && fp[fp.len() - 1] != 46u8 {
        lemma_last_dot_bounds(fp.subrange(0, fp.len() - 1));
    }
}

/// The file-name part of a path: everything after the last separator.
pub open spec fn spec_file_name(b: Seq<u8>) -> Seq<u8> {
    b.subrange(spec_last_slash_end(b), b.len() as int)
}

/// Whether a path ends in a usable file name: a nonempty final component
/// that is neither `.` nor `..`.
pub open spec fn spec_has_file_name(b: Seq<u8>) -> bool {
    let fp = spec_file_name(b);
    &&& fp.len() > 0
    &&& fp != seq![46u8]
    &&& fp != seq![46u8, 46u8]
}

/// How many bytes of the file name make up its stem: everything before the
/// last `.`, except that a lone leading `.` starts the stem rather than
/// ending it.
pub open spec fn spec_stem_len(fp: Seq<u8>) -> int {
    if spec_last_dot(fp) <= 0 {
        fp.len() as int
    } else {
        spec_last_dot(fp)
    }
}

/// Where decryption's default output path ends: the stem of the file name,
/// as an index into the whole path.
pub open spec fn spec_stem_end(b: Seq<u8>) -> int {
    spec_last_slash_end(b) + spec_stem_len(spec_file_name(b))
}

/// The path with trailing separators and trailing `.` components removed,
/// which is the path whose file name std's path inspection reports:
/// `dir/`, `dir//` and `dir/.` all name `dir`.
pub open spec fn spec_trim_path(b: Seq<u8>) -> Seq<u8>
    decreases b.len(),
{
    if b.len() == 0 {
        b
    } else if b[b.len() - 1] == 47u8 {
        spec_trim_path(b.subrange(0, b.len() - 1))
    } else if b[b.len() - 1] == 46u8 && (b.len() == 1 || b[b.len() - 2] == 47u8) {
        spec_trim_path(b.subrange(0, b.len() - 1))
    } else {
        b
    }
}

proof fn lemma_enc_extension()
    ensures
        ".enc".spec_bytes() =~= seq![46u8, 101u8, 110u8, 99u8],
        vstd::utf8::valid_utf8(".enc".spec_bytes()),
{
    reveal_strlit(".enc");
    vstd::string::is_ascii_spec_bytes(".enc");
    assert(vstd::string::is_ascii(".enc"));
    vstd::utf8::encode_utf8_valid_utf8(".enc"@);
}

/// Decide the output path for one file operation.
///
/// An explicit output path wins. Otherwise the input's file name — its last
/// component, ignoring trailing separators and trailing `.` components as
/// std's path inspection does — decides: encryption appends `.enc` to it,
/// and decryption drops its extension; a path without a usable file name
/// (empty, a root, or ending in `..`) is rejected.
#[verifier::rlimit(60)]
pub fn determine_output_path(input: &str, output: &Option<String>, is_encrypt: bool) -> (r: Result<String, CryptoError>)
    ensures
        output matches Some(p) ==> (r matches Ok(s) && s@ == p@),
        output is None && !spec_has_file_name(spec_trim_path(input.spec_bytes())) ==> (r matches Err(
            e,
        ) && e == CryptoError::InvalidPath),
        output is None && spec_has_file_name(spec_trim_path(input.spec_bytes())) && is_encrypt
            ==> (r matches Ok(s) && vstd::utf8::encode_utf8(s@) == spec_trim_path(
            input.spec_bytes(),
        ) + seq![46u8, 101u8, 110u8, 99u8]),
        output is None && spec_has_file_name(spec_trim_path(input.spec_bytes())) && !is_encrypt
            ==> (r matches Ok(s) && vstd::utf8::encode_utf8(s@) == spec_trim_path(
            input.spec_bytes(),
        ).subrange(0, spec_stem_end(spec_trim_path(input.spec_bytes())))),
{
    match output {
        Some(p) => {
            return Ok(p.as_str().to_owned());
        },
        None => {},
    }
    let bytes = input.as_bytes();
    let ghost b = input.spec_bytes();
    proof {
        vstd::utf8::encode_utf8_valid_utf8(input@);
        assert(b.subrange(0, b.len() as int) =~= b);
    }
    let mut end: usize = bytes.len();
    while end > 0 && (bytes[end - 1] == 47 || (bytes[end - 1] == 46 && (end == 1 || bytes[end
        - 2] == 47)))
        invariant
            0 <= end <= b.len(),
            bytes@ == b,
            spec_trim_path(b) == spec_trim_path(b.subrange(0, end as int)),
            end == b.len() || b[end as int] == 47u8 || b[end as int] == 46u8,
        decreases end,
    {
        proof {
            let cur = b.subrange(0, end as int);
            assert(cur[cur.len() - 1] == b[end - 1]);
            if end >= 2 {
                assert(cur[cur.len() - 2] == b[end - 2]);
            }
            assert(cur.subrange(0, cur.len() - 1) =~= b.subrange(0, end - 1));
        }
        end = end - 1;
    }
    let ghost t = b.subrange(0, end as int);
    proof {
        if end > 0 {
            assert(t[t.len() - 1] == b[end - 1]);
            if end >= 2 {
                assert(t[t.len() - 2] == b[end - 2]);
            }
        }
        assert(spec_trim_path(b) == t);
        lemma_last_slash_end_bounds(t);
        if end < b.len() {
            vstd::utf8::is_char_boundary_iff_not_is_continuation_byte(b, end as int);
            vstd::utf8::valid_utf8_split(b, end as int);
        } else {
            assert(t =~= b);
        }
        assert(vstd::utf8::valid_utf8(t));
        assert(t.subrange(0, t.len() as int) =~= t);
    }
    let mut i: usize = end;
    while i > 0 && bytes[i - 1] != 47
        invariant
            0 <= i <= end <= b.len(),
            bytes@ == b,
            t == b.subrange(0, end as int),
            spec_last_slash_end(t) == spec_last_slash_end(t.subrange(0, i as int)),
        decreases i,
    {
        proof {
            let cur = t.subrange(0, i as int);
            assert(cur[cur.len() - 1] == b[i - 1]);
            assert(cur.subrange(0, cur.len() - 1) =~= t.subrange(0, i - 1));
        }
        i = i - 1;
    }
    let lse = i;
    proof {
        if lse > 0 {
            assert(t.subrange(0, lse as int)[lse - 1] == b[lse - 1]);
        } else {
            assert(t.subrange(0, 0) =~= Seq::<u8>::empty());
        }
        assert(spec_last_slash_end(t) == lse);
    }
    let fl = end - lse;
    let ghost fp = spec_file_name(t);
    let has_name = if fl == 0 {
        false
    } else if fl == 1 {
        bytes[lse] != 46
    } else if fl == 2 {
        bytes[lse] != 46 || bytes[lse + 1] != 46
    } else {
        true
    };
    proof {
        assert(fp =~= t.subrange(lse as int, end as int));
        assert(fp.len() == fl);
        assert(seq![46u8].len() == 1 && seq![46u8][0] == 46u8);
        assert(seq![46u8, 46u8].len() == 2 && seq![46u8, 46u8][0] == 46u8 && seq![46u8, 46u8][1]
            == 46u8);
        if fl >= 1 {
            assert(fp[0] == b[lse as int]);
        }
        if fl >= 2 {
            assert(fp[1] == b[lse + 1]);
        }
        if fl == 1 && b[lse as int] == 46 {
            assert(fp =~= seq![46u8]);
        }
        if fl == 2 && b[lse as int] == 46 && b[lse + 1] == 46 {
            assert(fp =~= seq![46u8, 46u8]);
        }
        assert(has_name == spec_has_file_name(t));
    }
    if !has_name {
        return Err(CryptoError::InvalidPath);
    }
    if is_encrypt {
        let trimmed = vstd::slice::slice_subrange(bytes, 0, end);
        let mut out_bytes = vstd::slice::slice_to_vec(trimmed);
        out_bytes.push(46);
        out_bytes.push(101);
        out_bytes.push(110);
        out_bytes.push(99);
        proof {
            lemma_enc_extension();
            assert(out_bytes@ =~= t + ".enc".spec_bytes());
            vstd::utf8::valid_utf8_concat(t, ".enc".spec_bytes());
        }
        match crate::crypto::utf8_to_string(out_bytes) {
            Ok(s) => {
                proof {
                    vstd::utf8::decode_utf8_encode_utf8(t + ".enc".spec_bytes());
                    assert(vstd::utf8::encode_utf8(s@) =~= t + seq![46u8, 101u8, 110u8, 99u8]);
                }
                return Ok(s);
            },
            Err(_) => {
                proof {
                    assert(false);
                }
                return Err(CryptoError::InvalidPath);
            },
        }
    }
    proof {
        lemma_last_dot_bounds(fp);
        assert(fp.subrange(0, fp.len() as int) =~= fp);
    }
    let mut j: usize = end;
    while j > lse && bytes[j - 1] != 46
        invariant
            lse <= j <= end <= b.len(),
            bytes@ == b,
            t == b.subrange(0, end as int),
            lse == spec_last_slash_end(t),
            fp == spec_file_name(t),
            spec_last_dot(fp) == spec_last_dot(fp.subrange(0, j - lse as int)),
        decreases j,
    {
        proof {
            let sub = fp.subrange(0, j - lse as int);
            assert(sub[sub.len() - 1] == b[j - 1]);
            assert(sub.subrange(0, sub.len() - 1) =~= fp.subrange(0, j - 1 - lse as int));
        }
        j = j - 1;
    }
    proof {
        if j > lse {
            let sub = fp.subrange(0, j - lse as int);
            assert(sub[sub.len() - 1] == b[j - 1]);
            assert(spec_last_dot(fp) == j - 1 - lse);
        } else {
            assert(fp.subrange(0, 0) =~= Seq::<u8>::empty());
            assert(spec_last_dot(fp) == -1);
        }
    }
    let cut = if j <= lse + 1 {
        proof {
            assert(spec_last_dot(fp) <= 0);
            assert(spec_stem_end(t) == t.len());
        }
        end
    } else {
        proof {
            assert(spec_last_dot(fp) == j - 1 - lse > 0);
            assert(spec_stem_end(t) == j - 1);
        }
        j - 1
    };
    proof {
        assert(t.subrange(0, spec_stem_end(t)) =~= b.subrange(0, cut as int));
        if cut == b.len() {
            vstd::utf8::is_char_boundary_start_end_of_seq(b);
        } else {
            assert(b[cut as int] == 46u8 || b[cut as int] == 47u8 || cut == end);
            vstd::utf8::is_char_boundary_iff_not_is_continuation_byte(b, cut as int);
        }
        assert(vstd::utf8::is_char_boundary(b, cut as int));
    }
    let (head, _tail) = input.split_at(cut);
    Ok(head.to_owned())
}

/// Law: round trip for the streaming container. A container produced for a
/// plaintext `pt` — with the header, length and body that
/// `encrypt_container` ensures — meets every guard of `decrypt_container`'s
/// success case: it is the bare header when `pt` is empty and reaches the
/// one-chunk minimum otherwise, starts with the magic, and its body parses
/// to exactly `pt`, so decryption under the same password and costs returns
/// `pt`.
pub proof fn lemma_container_round_trip(key: Seq<u8>, container: Seq<u8>, pt: Seq<u8>)
    requires
        container.len() == 13 + pt.len() + 32 * spec_num_chunks(pt.len() as int),
        container.subrange(0, 13) == spec_container_header(),
        parse_chunks(key, container.subrange(13, container.len() as int))
            == ChunksOutcome::Complete(pt),
    ensures
        container.len() >= 33 || container.len() == 13,
        container.subrange(0, 9) == spec_stream_magic(),
        parse_chunks(key, container.subrange(13, container.len() as int))
            == ChunksOutcome::Complete(pt),
{
    if pt.len() > 0 {
        assert(spec_num_chunks(pt.len() as int) >= 1) by (nonlinear_arith)
            requires
                pt.len() > 0,
        ;
    }
    assert(container.subrange(0, 9) =~= container.subrange(0, 13).subrange(0, 9));
    assert(spec_container_header().subrange(0, 9) =~= spec_stream_magic());
}

} // verus!
