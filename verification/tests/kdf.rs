use mycrypt::{
    derive_key_with_argon2, generate_key_from_password, generate_key_from_password_legacy,
    Argon2Config, Config, CryptoError, OutputFormat,
};

fn fast_config() -> Config {
    Config {
        default_format: OutputFormat::Base64,
        default_verbose: false,
        default_password_env: None,
        version: String::from("2.0"),
        argon2: Argon2Config { memory_cost: 8, time_cost: 1, parallelism: 1 },
    }
}

#[test]
fn key_derivation_is_deterministic() {
    let params = Argon2Config { memory_cost: 16, time_cost: 1, parallelism: 1 };
    let salt = [7u8; 16];
    let k1 = derive_key_with_argon2("a password", &salt, &params).unwrap();
    let k2 = derive_key_with_argon2("a password", &salt, &params).unwrap();
    assert_eq!(k1, k2);
    assert_eq!(k1.len(), 32);
}

#[test]
fn password_derived_key_is_deterministic() {
    let config = fast_config();
    let k1 = generate_key_from_password("same password", &config).unwrap();
    let k2 = generate_key_from_password("same password", &config).unwrap();
    assert_eq!(k1, k2);
}

#[test]
fn different_inputs_give_different_keys() {
    let params = Argon2Config { memory_cost: 16, time_cost: 1, parallelism: 1 };
    let salt = [7u8; 16];
    let k1 = derive_key_with_argon2("password one", &salt, &params).unwrap();
    let k2 = derive_key_with_argon2("password two", &salt, &params).unwrap();
    assert_ne!(k1, k2);
    let other_salt = [8u8; 16];
    let k3 = derive_key_with_argon2("password one", &other_salt, &params).unwrap();
    assert_ne!(k1, k3);
}

#[test]
fn invalid_cost_combinations_are_rejected() {
    let salt = [7u8; 16];
    for params in [
        Argon2Config { memory_cost: 16, time_cost: 0, parallelism: 1 },
        Argon2Config { memory_cost: 16, time_cost: 1, parallelism: 0 },
        Argon2Config { memory_cost: 7, time_cost: 1, parallelism: 1 },
        Argon2Config { memory_cost: 8, time_cost: 1, parallelism: 2 },
        Argon2Config { memory_cost: 16, time_cost: 1, parallelism: 0x1000000 },
    ] {
        assert_eq!(
            derive_key_with_argon2("pw", &salt, &params).unwrap_err(),
            CryptoError::ConfigurationError
        );
    }
}

#[test]
fn short_salt_is_rejected() {
    let params = Argon2Config { memory_cost: 16, time_cost: 1, parallelism: 1 };
    assert_eq!(
        derive_key_with_argon2("pw", &[1u8; 7], &params).unwrap_err(),
        CryptoError::ConfigurationError
    );
    assert!(derive_key_with_argon2("pw", &[1u8; 8], &params).is_ok());
}

#[test]
fn legacy_key_cycles_password_bytes() {
    let key = generate_key_from_password_legacy("abc");
    for i in 0..32 {
        assert_eq!(key[i], b"abc"[i % 3]);
    }
}

#[test]
fn legacy_key_of_empty_password_is_zero() {
    assert_eq!(generate_key_from_password_legacy(""), [0u8; 32]);
}

#[test]
fn default_config_values() {
    let config = Config::default();
    assert_eq!(config.version, "2.0");
    assert_eq!(config.default_password_env.as_deref(), Some("MYCRYPT_PASSWORD"));
    assert!(!config.default_verbose);
    let argon2 = Argon2Config::default();
    assert_eq!(argon2.memory_cost, 65536);
    assert_eq!(argon2.time_cost, 3);
    assert_eq!(argon2.parallelism, 4);
}
