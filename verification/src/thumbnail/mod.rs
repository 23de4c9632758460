//! Selection of the most representative part of a recording.

pub mod analysis;
pub mod chroma;
pub mod fitness;
pub mod ssm;

pub use self::analysis::{analyze, ThumbnailConfig, ThumbnailResult};
