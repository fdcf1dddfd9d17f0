//! What an opener asks for.

use vstd::prelude::*;

use crate::double::{whole_number, whole_part};
use crate::path::FsPath;
use crate::storage::{config_cache_size, config_directory, with_cache_size};

verus! {

/// How to open the engine of a directory. Fixed by the first opener of the directory.
pub struct EngineConfig {
    pub path: FsPath,
    /// Capacity of the shared block cache in bytes.
    pub cache_size_bytes: Option<u64>,
}

/// Whether a handle may write.
#[derive(Clone, Copy, PartialEq, Eq, Structural)]
pub enum Writability {
    Writable,
    ReadOnly,
}

/// The cache capacity that is handed on: a capacity of nothing is no capacity.
pub open spec fn cache_size_to_set(cache_size_bytes: Option<u64>) -> Option<u64> {
    match cache_size_bytes {
        Some(bytes) => if bytes >= 1 {
            Some(bytes)
        } else {
            None
        },
        None => None,
    }
}

/// Every capacity but that of nothing is handed on as it was asked for; nothing else is.
pub proof fn a_cache_size_is_handed_on_unchanged(bytes: u64)
    ensures
        cache_size_to_set(Some(bytes)) is Some <==> bytes != 0,
        bytes != 0 ==> cache_size_to_set(Some(bytes))->0 == bytes,
        cache_size_to_set(None) is None,
{
}

impl EngineConfig {
    /// A copy of this configuration.
    pub fn copied(&self) -> (cfg: EngineConfig)
        ensures
            cfg.path@ == self.path@,
            cfg.cache_size_bytes == self.cache_size_bytes,
    {
        EngineConfig { path: self.path.copied(), cache_size_bytes: self.cache_size_bytes }
    }
}

/// The storage crate's configuration for an opener: `config` with the cache capacity that the
/// opener asked for, if any.
pub fn open_fjall(cfg: &EngineConfig, config: fjall::Config) -> (configured: fjall::Config)
    ensures
        match cache_size_to_set(cfg.cache_size_bytes) {
            Some(bytes) => {
                &&& config_cache_size(configured) == bytes
                &&& config_directory(configured) == config_directory(config)
            },
            None => configured == config,
        },
        cfg.cache_size_bytes matches Some(bytes) ==> bytes >= 1 ==> config_cache_size(configured)
            == bytes,
        cfg.cache_size_bytes is None || cfg.cache_size_bytes == Some(0u64) ==> configured == config,
        config_directory(configured) == config_directory(config),
{
    match cfg.cache_size_bytes {
        Some(bytes) => if bytes >= 1 {
            with_cache_size(config, bytes)
        } else {
            config
        },
        None => config,
    }
}

/// What a caller asks for.
pub struct DatabaseConfig {
    pub path: FsPath,
    /// Capacity of the shared block cache in bytes: the bits of a double-precision floating-point
    /// number.
    pub cache_size_bytes: Option<u64>,
}

/// The cache capacity that a caller's number stands for.
pub open spec fn cache_size_meant(cache_size_bytes: Option<u64>) -> Option<u64> {
    match cache_size_bytes {
        Some(bits) => whole_part(bits),
        None => None,
    }
}

/// A caller who names no capacity asks for none, and one who names a capacity asks for the whole
/// number that its bits hold.
pub proof fn a_cache_size_is_meant_as_it_is_written(bits: u64)
    ensures
        cache_size_meant(None) is None,
        cache_size_meant(Some(bits)) == whole_part(bits),
{
}

/// The configuration that a caller's request stands for. A cache capacity that is not finite or
/// not at least 1 counts as none.
pub fn to_engine_config(c: &DatabaseConfig) -> (cfg: EngineConfig)
    ensures
        cfg.path@ == c.path@,
        cfg.cache_size_bytes == cache_size_meant(c.cache_size_bytes),
        c.cache_size_bytes is None ==> cfg.cache_size_bytes is None,
        c.cache_size_bytes matches Some(bits) ==> cfg.cache_size_bytes == whole_part(bits),
{
    let cache_size_bytes = match c.cache_size_bytes {
        Some(bits) => whole_number(bits),
        None => None,
    };
    EngineConfig { path: c.path.copied(), cache_size_bytes }
}

} // verus!
