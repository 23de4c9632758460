//! The signed path of a request: its route, its parameters and its hashes.

pub mod hasher;
pub mod params;
pub mod routing;
