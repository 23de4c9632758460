//! The response cache.

pub mod backend;
pub mod fs;
pub mod redis;
