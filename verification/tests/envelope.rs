use mycrypt::{
    base64_encode, decrypt_envelope, decrypt_string, encrypt_envelope, encrypt_string,
    Argon2Config, Config, CryptoError, OutputFormat,
};

fn fast_config() -> Config {
    Config {
        default_format: OutputFormat::Base64,
        default_verbose: false,
        default_password_env: None,
        version: String::from("2.0"),
        argon2: Argon2Config { memory_cost: 8, time_cost: 1, parallelism: 1 },
    }
}

#[test]
fn hello_world_default_params_roundtrip() {
    let config = Config::default();
    assert_eq!(config.argon2.memory_cost, 65536);
    assert_eq!(config.argon2.time_cost, 3);
    assert_eq!(config.argon2.parallelism, 4);
    let encrypted = encrypt_string("hello world", "correct horse", &config).unwrap();
    let raw = decode_base64(&encrypted);
    assert_eq!(raw.len(), 12 + 11 + 16);
    let decrypted = decrypt_string(&encrypted, "correct horse", &config).unwrap();
    assert_eq!(decrypted, "hello world");
}

#[test]
fn hello_world_wrong_password_fails() {
    let config = Config::default();
    let encrypted = encrypt_string("hello world", "correct horse", &config).unwrap();
    let err = decrypt_string(&encrypted, "wrong", &config).unwrap_err();
    assert_eq!(err, CryptoError::AuthenticationFailed);
}

// Decodes standard padded base64 by hand so the test does not depend on the
// library's own encoder being correct.
fn decode_base64(text: &str) -> Vec<u8> {
    let value = |c: u8| -> u32 {
        match c {
            b'A'..=b'Z' => (c - b'A') as u32,
            b'a'..=b'z' => (c - b'a') as u32 + 26,
            b'0'..=b'9' => (c - b'0') as u32 + 52,
            b'+' => 62,
            b'/' => 63,
            _ => panic!("bad base64 digit"),
        }
    };
    let bytes: Vec<u8> = text.bytes().filter(|&c| c != b'=').collect();
    let mut out = Vec::new();
    for group in bytes.chunks(4) {
        let mut acc: u32 = 0;
        for &c in group {
            acc = (acc << 6) | value(c);
        }
        let bits = 6 * group.len();
        let whole = bits / 8;
        acc <<= 24 - bits;
        let buf = acc.to_be_bytes();
        out.extend_from_slice(&buf[1..1 + whole]);
    }
    out
}

#[test]
fn string_roundtrip_various_plaintexts() {
    let config = fast_config();
    for text in ["a", "hello", "multi\nline\ttext", "日本語のテキスト", "x"] {
        let encrypted = encrypt_string(text, "pw", &config).unwrap();
        assert_eq!(decrypt_string(&encrypted, "pw", &config).unwrap(), text);
    }
}

#[test]
fn envelope_roundtrip_bytes_including_empty() {
    let config = fast_config();
    for data in [&b""[..], &b"x"[..], &[0u8; 1000][..]] {
        let envelope = encrypt_envelope(data, "pw", &config).unwrap();
        assert_eq!(envelope.len(), data.len() + 28);
        assert_eq!(decrypt_envelope(&envelope, "pw", &config).unwrap(), data);
    }
}

#[test]
fn wrong_password_fails_closed() {
    let config = fast_config();
    for text in ["a", "some longer plaintext to protect"] {
        let encrypted = encrypt_string(text, "first", &config).unwrap();
        let err = decrypt_string(&encrypted, "second", &config).unwrap_err();
        assert_eq!(err, CryptoError::AuthenticationFailed);
    }
}

#[test]
fn empty_text_is_rejected() {
    let config = fast_config();
    assert_eq!(encrypt_string("", "pw", &config).unwrap_err(), CryptoError::EmptyInput);
}

#[test]
fn bad_base64_is_malformed() {
    let config = fast_config();
    assert_eq!(
        decrypt_string("this is not base64!!", "pw", &config).unwrap_err(),
        CryptoError::MalformedEnvelope
    );
}

#[test]
fn short_envelope_is_malformed() {
    let config = fast_config();
    let short = base64_encode(&[1u8, 2, 3]);
    assert_eq!(decrypt_string(&short, "pw", &config).unwrap_err(), CryptoError::MalformedEnvelope);
    assert_eq!(
        decrypt_envelope(&[0u8; 11], "pw", &config).unwrap_err(),
        CryptoError::MalformedEnvelope
    );
}

#[test]
fn invalid_params_are_configuration_errors() {
    let mut config = fast_config();
    config.argon2 = Argon2Config { memory_cost: 8, time_cost: 0, parallelism: 1 };
    assert_eq!(encrypt_string("x", "pw", &config).unwrap_err(), CryptoError::ConfigurationError);
    config.argon2 = Argon2Config { memory_cost: 8, time_cost: 1, parallelism: 2 };
    assert_eq!(
        decrypt_envelope(&[0u8; 40], "pw", &config).unwrap_err(),
        CryptoError::ConfigurationError
    );
    config.argon2 = Argon2Config { memory_cost: 8, time_cost: 1, parallelism: 0 };
    assert_eq!(encrypt_envelope(b"x", "pw", &config).unwrap_err(), CryptoError::ConfigurationError);
}

#[test]
fn non_utf8_plaintext_is_encoding_error() {
    let config = fast_config();
    let envelope = encrypt_envelope(&[0xFFu8, 0xFE, 0x00], "pw", &config).unwrap();
    let text = base64_encode(&envelope);
    assert_eq!(decrypt_string(&text, "pw", &config).unwrap_err(), CryptoError::EncodingError);
}

#[test]
fn every_single_bit_flip_is_detected() {
    let config = fast_config();
    let envelope = encrypt_envelope(b"bit flip target", "pw", &config).unwrap();
    for pos in 12..envelope.len() {
        for bit in 0..8 {
            let mut tampered = envelope.clone();
            tampered[pos] ^= 1u8 << bit;
            let err = decrypt_envelope(&tampered, "pw", &config).unwrap_err();
            assert_eq!(err, CryptoError::AuthenticationFailed);
        }
    }
}

#[test]
fn base64_encode_matches_known_value() {
    assert_eq!(base64_encode(b"hi"), "aGk=");
    assert_eq!(base64_encode(b""), "");
    assert_eq!(base64_encode(&[0u8, 0, 0]), "AAAA");
}

#[test]
fn error_messages_are_nonempty() {
    assert!(!CryptoError::AuthenticationFailed.message().is_empty());
    assert!(!CryptoError::ConfigurationError.message().is_empty());
}
