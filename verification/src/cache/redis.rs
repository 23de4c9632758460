//! The response cache in Redis: which command each operation sends.

use bytes::Bytes;
use vstd::prelude::*;

verus! {

/// A cache in a Redis server.
pub struct RedisCache {
    pub uri: String,
}

/// A command to the server.
pub enum RedisCommand {
    /// Reads a key.
    Get { key: String },
    /// Sets a key.
    Put { key: String, value: Bytes },
    /// Sets a key that expires after some seconds.
    PutFor { key: String, value: Bytes, seconds: u64 },
    /// Deletes a key.
    Del { key: String },
}

impl RedisCache {
    /// A cache in the server at `uri`.
    pub fn new(uri: String) -> (c: RedisCache)
        ensures
            c.uri == uri,
    {
        RedisCache { uri }
    }

    /// The command that reads a key.
    pub fn get(&self, key: &str) -> (c: RedisCommand)
        ensures
            c matches RedisCommand::Get { key: k } && k@ == key@,
    {
        RedisCommand::Get { key: key.to_string() }
    }

    /// The command that sets a key, for good or for some seconds.
    pub fn set(&self, key: &str, value: Bytes, ttl: Option<u64>) -> (c: RedisCommand)
        ensures
            match ttl {
                Some(t) => c matches RedisCommand::PutFor { key: k, value: v, seconds }
                    && k@ == key@ && v == value && seconds == t,
                None => c matches RedisCommand::Put { key: k, value: v } && k@ == key@ && v
                    == value,
            },
    {
        match ttl {
            Some(seconds) => RedisCommand::PutFor { key: key.to_string(), value, seconds },
            None => RedisCommand::Put { key: key.to_string(), value },
        }
    }

    /// The command that deletes a key.
    pub fn delete(&self, key: &str) -> (c: RedisCommand)
        ensures
            c matches RedisCommand::Del { key: k } && k@ == key@,
    {
        RedisCommand::Del { key: key.to_string() }
    }
}

} // verus!
