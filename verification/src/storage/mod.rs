//! The storage of source audio.

pub mod cached;
