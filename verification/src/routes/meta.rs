//! The metadata route.

use vstd::prelude::*;
use crate::ffmpeg::metadata::AudioFileMetadata;
use crate::tags::Tags;
use crate::text;
use crate::utils::{e500, AppError};

verus! {

/// The metadata that is answered.
pub struct AudioMetadata {
    /// The name of the format.
    pub format: String,
    /// The duration in microseconds.
    pub duration: Option<i64>,
    /// The bit rate in bits per second.
    pub bit_rate: Option<i64>,
    /// The sample rate in Hz.
    pub sample_rate: Option<i64>,
    /// The number of channels.
    pub channels: Option<i64>,
    /// The name of the codec.
    pub codec: Option<String>,
    /// The size in bytes.
    pub size: Option<i64>,
    /// The tags.
    pub tags: Tags,
}

/// What the extraction of metadata gave.
pub enum Extraction {
    /// Metadata.
    Found(AudioFileMetadata),
    /// The text of an error of the codec library.
    Failed(String),
    /// The text of the end of a task that was cut short.
    Aborted(String),
}

/// A number in a wider type.
pub open spec fn widened(n: Option<i32>) -> Option<i64> {
    match n {
        Some(v) => Some(v as i64),
        None => None,
    }
}

/// Answers by what the extraction of metadata gave.
pub fn meta_handler(extraction: Extraction) -> (r: Result<AudioMetadata, AppError>)
    ensures
        match extraction {
            Extraction::Found(m) => r == Ok::<AudioMetadata, AppError>(
                AudioMetadata {
                    format: m.format,
                    duration: m.duration,
                    bit_rate: m.bit_rate,
                    sample_rate: widened(m.sample_rate),
                    channels: widened(m.channels),
                    codec: m.codec,
                    size: m.size,
                    tags: m.tags,
                },
            ),
            Extraction::Failed(e) => r is Err && r->Err_0.says(
                500,
                "Failed to extract metadata: "@ + e@,
            ),
            Extraction::Aborted(e) => r is Err && r->Err_0.says(
                500,
                "Metadata extraction task failed: "@ + e@,
            ),
        },
{
    match extraction {
        Extraction::Found(m) => Ok(
            AudioMetadata {
                format: m.format,
                duration: m.duration,
                bit_rate: m.bit_rate,
                sample_rate: match m.sample_rate {
                    Some(v) => Some(v as i64),
                    None => None,
                },
                channels: match m.channels {
                    Some(v) => Some(v as i64),
                    None => None,
                },
                codec: m.codec,
                size: m.size,
                tags: m.tags,
            },
        ),
        Extraction::Failed(e) => Err(e500(text::cat("Failed to extract metadata: ", e.as_str()))),
        Extraction::Aborted(e) => Err(
            e500(text::cat("Metadata extraction task failed: ", e.as_str())),
        ),
    }
}

/// Where a number was found, the answer holds one and it is the same number; where none was
/// found, the answer holds none.
pub proof fn law_found_numbers_are_answered(n: Option<i32>)
    ensures
        widened(n) is Some <==> n is Some,
        n is Some ==> widened(n)->Some_0 as int == n->Some_0 as int,
{
}

} // verus!
