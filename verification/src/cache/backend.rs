//! The choice of a response cache.

use vstd::prelude::*;
use crate::cache::fs::FileSystemCache;
use crate::cache::redis::RedisCache;

verus! {

/// Which cache is configured.
pub enum CacheSettings {
    /// Redis at a URI.
    Redis { uri: String },
    /// A directory with a limit in megabytes.
    Filesystem { base_dir: String, max_size_mb: u64 },
}

/// A response cache.
pub enum Cache {
    /// In a Redis server.
    Redis(RedisCache),
    /// In a directory.
    Filesystem(FileSystemCache),
}

impl Cache {
    /// The cache that is configured.
    pub fn new(config: CacheSettings) -> (c: Cache)
        requires
            config matches CacheSettings::Filesystem { base_dir, max_size_mb } ==> max_size_mb
                * 1048576 <= u64::MAX,
        ensures
            match config {
                CacheSettings::Redis { uri } => c matches Cache::Redis(r) && r.uri == uri,
                CacheSettings::Filesystem { base_dir, max_size_mb } => c matches Cache::Filesystem(
                    f,
                ) && f.serves(base_dir@, max_size_mb),
            },
    {
        match config {
            CacheSettings::Redis { uri } => Cache::Redis(RedisCache::new(uri)),
            CacheSettings::Filesystem { base_dir, max_size_mb } => Cache::Filesystem(
                FileSystemCache::new(base_dir.as_str(), max_size_mb),
            ),
        }
    }
}

} // verus!
