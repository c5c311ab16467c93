//! The cache's settings, and their defaults.
use vstd::prelude::*;
use crate::text::{owned, str_eq};

verus! {

/// Whether values are encrypted, and whether the program updates itself.
#[derive(Debug, Clone, Copy, PartialEq, Eq)]
pub struct Config {
    pub encryption_enabled: bool,
    pub auto_update_enabled: bool,
}

impl Default for Config {
    /// Both encryption and automatic updates are on by default.
    fn default() -> (c: Self)
        ensures
            c.encryption_enabled,
            c.auto_update_enabled,
    {
        Config { encryption_enabled: true, auto_update_enabled: true }
    }
}

/// The settings of a cache in a chosen directory.
#[derive(Debug, Clone, PartialEq, Eq)]
pub struct StorageConfig {
    pub encryption_enabled: bool,
    pub cache_size: usize,
    pub encryption_key_path: String,
}

impl Default for StorageConfig {
    /// Encryption on, 1024 entries, the key in "encryption_key.bin".
    fn default() -> (c: Self)
        ensures
            c.encryption_enabled,
            c.cache_size == 1024,
            c.encryption_key_path@ == "encryption_key.bin"@,
    {
        StorageConfig {
            encryption_enabled: true,
            cache_size: 1024,
            encryption_key_path: owned("encryption_key.bin"),
        }
    }
}

/// The settings read from the environment: only whether to encrypt.
#[derive(Debug, Clone, Copy, PartialEq, Eq)]
pub struct EnvConfig {
    pub encryption_enabled: bool,
}

/// The settings given the value of the `ENCRYPTION_ENABLED` variable, if it
/// is set. An unset variable means "false"; a set one must read "true" or
/// "false".
pub fn load_config(encryption_enabled_var: Option<&str>) -> (c: EnvConfig)
    requires
        encryption_enabled_var matches Some(v) ==> (v@ == "true"@ || v@ == "false"@),
    ensures
        c.encryption_enabled == (encryption_enabled_var matches Some(v) && v@ == "true"@),
{
    let encryption_enabled = match encryption_enabled_var {
        Some(v) => str_eq(v, "true"),
        None => false,
    };
    EnvConfig { encryption_enabled }
}

} // verus!
