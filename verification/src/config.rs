//! Tunable settings: key-derivation costs and output preferences.

use vstd::prelude::*;

verus! {

/// How encrypted strings are rendered for transport.
#[derive(Clone, Copy, Debug, PartialEq, Eq, Structural)]
pub enum OutputFormat {
    Base64,
    Hex,
}

/// Argon2 cost parameters.
///
/// All three must be positive; the exact ranges Argon2 accepts are
/// `spec_params_valid`. Encrypting and decrypting calls must use identical
/// values, or decryption fails with an authentication error.
#[derive(Clone, Copy, Debug, PartialEq, Eq, Structural)]
pub struct Argon2Config {
    /// Memory use in KiB.
    pub memory_cost: u32,
    /// Number of iterations.
    pub time_cost: u32,
    /// Degree of parallelism (lanes).
    pub parallelism: u32,
}

/// Whether Argon2 accepts this parameter combination: parallelism between 1
/// and 2^24 - 1, at least one iteration, and at least 8 KiB of memory per
/// lane.
pub open spec fn spec_params_valid(c: Argon2Config) -> bool {
    &&& 1 <= c.parallelism <= 0xFFFFFF
    &&& c.time_cost >= 1
    &&& c.memory_cost >= 8 * c.parallelism
}

impl Argon2Config {
    /// Whether Argon2 accepts this parameter combination.
    pub fn params_valid(&self) -> (r: bool)
        ensures
            r == spec_params_valid(*self),
    {
        1 <= self.parallelism && self.parallelism <= 0xFFFFFF && self.time_cost >= 1
            && self.memory_cost >= 8 * self.parallelism
    }
}

impl Default for Argon2Config {
    /// The documented defaults: 64 MiB of memory, 3 iterations, 4 lanes.
    fn default() -> (r: Self)
        ensures
            r.memory_cost == 65536,
            r.time_cost == 3,
            r.parallelism == 4,
            spec_params_valid(r),
    {
        Argon2Config { memory_cost: 65536, time_cost: 3, parallelism: 4 }
    }
}

/// The settings a caller hands to the codecs.
#[derive(Debug)]
pub struct Config {
    /// Default rendering of encrypted strings.
    pub default_format: OutputFormat,
    /// Whether verbose reporting is on by default.
    pub default_verbose: bool,
    /// Name of an environment variable that may hold the password.
    pub default_password_env: Option<String>,
    /// Version tag of the settings layout.
    pub version: String,
    /// Argon2 cost parameters.
    pub argon2: Argon2Config,
}

impl Default for Config {
    fn default() -> (r: Self)
        ensures
            r.default_format == OutputFormat::Base64,
            r.default_verbose == false,
            r.default_password_env matches Some(e) && e@ == "MYCRYPT_PASSWORD"@,
            r.version@ == "2.0"@,
            r.argon2.memory_cost == 65536,
            r.argon2.time_cost == 3,
            r.argon2.parallelism == 4,
    {
        Config {
            default_format: OutputFormat::Base64,
            default_verbose: false,
            default_password_env: Some("MYCRYPT_PASSWORD".to_owned()),
            version: "2.0".to_owned(),
            argon2: Argon2Config::default(),
        }
    }
}

} // verus!
