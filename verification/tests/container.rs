use mycrypt::{
    decrypt_container, encrypt_container, Argon2Config, Config, CryptoError, OutputFormat,
    StreamDecryptor, StreamEncryptor,
};

fn fast_config() -> Config {
    Config {
        default_format: OutputFormat::Base64,
        default_verbose: false,
        default_password_env: None,
        version: String::from("2.0"),
        argon2: Argon2Config { memory_cost: 8, time_cost: 1, parallelism: 1 },
    }
}

fn patterned(len: usize) -> Vec<u8> {
    (0..len).map(|i| (i % 251) as u8).collect()
}

// Walks a container's frames: returns (nonce, ciphertext) per chunk.
fn split_frames(container: &[u8]) -> Vec<(Vec<u8>, Vec<u8>)> {
    assert_eq!(&container[0..9], b"GCMSTREAM");
    assert_eq!(&container[9..13], &65536u32.to_le_bytes());
    let mut frames = Vec::new();
    let mut pos = 13;
    while pos < container.len() {
        let nonce = container[pos..pos + 12].to_vec();
        let len =
            u32::from_le_bytes(container[pos + 12..pos + 16].try_into().unwrap()) as usize;
        let ct = container[pos + 16..pos + 16 + len].to_vec();
        frames.push((nonce, ct));
        pos += 16 + len;
    }
    assert_eq!(pos, container.len());
    frames
}

#[test]
fn container_roundtrip_small() {
    let config = fast_config();
    let data = b"small container payload";
    let container = encrypt_container(data, "pw", &config).unwrap();
    assert_eq!(decrypt_container(&container, "pw", &config).unwrap(), data);
}

#[test]
fn container_roundtrip_multi_chunk() {
    let config = fast_config();
    let data = patterned(3 * 65536 + 17);
    let container = encrypt_container(&data, "pw", &config).unwrap();
    assert_eq!(container.len(), 13 + data.len() + 4 * 32);
    assert_eq!(decrypt_container(&container, "pw", &config).unwrap(), data);
}

#[test]
fn container_roundtrip_exact_chunk_multiple() {
    let config = fast_config();
    let data = patterned(2 * 65536);
    let container = encrypt_container(&data, "pw", &config).unwrap();
    assert_eq!(container.len(), 13 + data.len() + 2 * 32);
    assert_eq!(decrypt_container(&container, "pw", &config).unwrap(), data);
}

#[test]
fn container_wrong_password_fails_closed() {
    let config = fast_config();
    let container = encrypt_container(b"secret stream", "first", &config).unwrap();
    let err = decrypt_container(&container, "second", &config).unwrap_err();
    assert_eq!(err, CryptoError::AuthenticationFailed);
}

#[test]
fn chunk_count_and_nonce_uniqueness() {
    let config = fast_config();
    for (len, chunks) in
        [(0usize, 0usize), (1, 1), (65535, 1), (65536, 1), (65537, 2), (2 * 65536 + 5, 3)]
    {
        let data = patterned(len);
        let container = encrypt_container(&data, "pw", &config).unwrap();
        let frames = split_frames(&container);
        assert_eq!(frames.len(), chunks);
        for (j, (nonce, _)) in frames.iter().enumerate() {
            assert_eq!(&nonce[0..8], &(j as u64).to_le_bytes());
        }
        for a in 0..frames.len() {
            for b in 0..a {
                assert_ne!(frames[a].0, frames[b].0);
            }
        }
    }
}

#[test]
fn empty_input_yields_bare_header() {
    let config = fast_config();
    let container = encrypt_container(b"", "pw", &config).unwrap();
    assert_eq!(container.len(), 13);
    assert_eq!(&container[0..9], b"GCMSTREAM");
    assert_eq!(&container[9..13], &65536u32.to_le_bytes());
    // The bare header is the empty container and round-trips to an empty
    // output.
    let decrypted = decrypt_container(&container, "pw", &config).unwrap();
    assert!(decrypted.is_empty());
}

#[test]
fn truncation_is_detected_at_every_cut() {
    let config = fast_config();
    let data = patterned(65536 + 40);
    let container = encrypt_container(&data, "pw", &config).unwrap();
    let boundaries = [13usize, 13 + 65568, container.len()];
    let cuts = [
        14usize,
        13 + 7,
        13 + 12,
        13 + 15,
        13 + 16,
        13 + 100,
        13 + 65567,
        13 + 65568 + 1,
        13 + 65568 + 13,
        container.len() - 1,
    ];
    for cut in cuts {
        assert!(!boundaries.contains(&cut));
        let err = decrypt_container(&container[..cut], "pw", &config).unwrap_err();
        if cut < 33 {
            assert_eq!(err, CryptoError::MalformedContainer);
        } else {
            assert_eq!(err, CryptoError::TruncatedContainer);
        }
    }
}

#[test]
fn truncation_at_chunk_boundary_drops_tail() {
    let config = fast_config();
    let data = patterned(65536 + 40);
    let container = encrypt_container(&data, "pw", &config).unwrap();
    // A cut exactly between two chunks is indistinguishable from a shorter
    // container and decrypts to the first chunk alone.
    let cut = 13 + 65568;
    let decrypted = decrypt_container(&container[..cut], "pw", &config).unwrap();
    assert_eq!(decrypted, &data[..65536]);
}

#[test]
fn bad_magic_is_invalid_format() {
    let config = fast_config();
    let mut container = encrypt_container(b"payload", "pw", &config).unwrap();
    container[0] ^= 0x01;
    assert_eq!(decrypt_container(&container, "pw", &config).unwrap_err(), CryptoError::InvalidFormat);
}

#[test]
fn short_container_is_malformed() {
    let config = fast_config();
    assert_eq!(decrypt_container(&[0u8; 32], "pw", &config).unwrap_err(), CryptoError::MalformedContainer);
    assert_eq!(decrypt_container(b"", "pw", &config).unwrap_err(), CryptoError::MalformedContainer);
}

#[test]
fn container_flipped_chunk_byte_fails_authentication() {
    let config = fast_config();
    let data = patterned(100);
    let mut container = encrypt_container(&data, "pw", &config).unwrap();
    let last = container.len() - 1;
    container[last] ^= 0x80;
    assert_eq!(
        decrypt_container(&container, "pw", &config).unwrap_err(),
        CryptoError::AuthenticationFailed
    );
}

#[test]
fn stream_chunk_api_matches_container() {
    let config = fast_config();
    let first = patterned(65536);
    let second = b"tail chunk".to_vec();
    let mut enc = StreamEncryptor::new("pw", &config).unwrap();
    let mut container = StreamEncryptor::container_header();
    container.extend_from_slice(&enc.encrypt_chunk(&first));
    container.extend_from_slice(&enc.encrypt_chunk(&second));
    let mut whole = first.clone();
    whole.extend_from_slice(&second);
    assert_eq!(decrypt_container(&container, "pw", &config).unwrap(), whole);

    let dec = StreamDecryptor::new("pw", &config).unwrap();
    let frames = split_frames(&container);
    assert_eq!(dec.decrypt_chunk(&frames[0].0, &frames[0].1).unwrap(), first);
    assert_eq!(dec.decrypt_chunk(&frames[1].0, &frames[1].1).unwrap(), second);
    assert_eq!(
        dec.decrypt_chunk(&frames[1].0, &frames[0].1).unwrap_err(),
        CryptoError::AuthenticationFailed
    );
}

#[test]
fn stream_encryptor_rejects_bad_params() {
    let mut config = fast_config();
    config.argon2.parallelism = 0;
    assert_eq!(StreamEncryptor::new("pw", &config).unwrap_err(), CryptoError::ConfigurationError);
    assert_eq!(StreamDecryptor::new("pw", &config).unwrap_err(), CryptoError::ConfigurationError);
}
