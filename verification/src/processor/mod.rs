//! Processing of audio with the codec library.

pub mod ffmpeg;
pub mod pool;

pub use self::pool::Processor;
