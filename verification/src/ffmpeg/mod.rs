//! What is made of the replies of the codec library.

pub mod metadata;
pub mod pcm;

pub use self::metadata::{extract_metadata, AudioFileMetadata};
pub use self::pcm::{decode_to_pcm, PcmData};
