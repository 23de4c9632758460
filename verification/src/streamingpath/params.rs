//! The parameters of a request.

use vstd::prelude::*;
use crate::blob::AudioFormat;
use crate::float64::Float64;
use crate::tags::Tags;

verus! {

/// What a request asks for. A field that is `None` was not given.
pub struct Params {
    /// The audio: a key of the storage or a remote URL.
    pub key: String,
    /// The output format.
    pub format: Option<AudioFormat>,
    /// The audio codec.
    pub codec: Option<String>,
    /// The sample rate in Hz.
    pub sample_rate: Option<i32>,
    /// The number of channels.
    pub channels: Option<i32>,
    /// The bit rate in kbps.
    pub bit_rate: Option<i32>,
    /// The bit depth.
    pub bit_depth: Option<i32>,
    /// The encoding quality.
    pub quality: Option<Float64>,
    /// The compression level.
    pub compression_level: Option<i32>,
    /// The start in seconds.
    pub start_time: Option<Float64>,
    /// The duration in seconds.
    pub duration: Option<Float64>,
    /// The playback speed.
    pub speed: Option<Float64>,
    /// Whether to reverse the audio.
    pub reverse: Option<bool>,
    /// The volume multiplier.
    pub volume: Option<Float64>,
    /// Whether to normalize the loudness.
    pub normalize: Option<bool>,
    /// The loudness to normalize to, in dB.
    pub normalize_level: Option<Float64>,
    /// The cutoff of a low-pass filter.
    pub lowpass: Option<Float64>,
    /// The cutoff of a high-pass filter.
    pub highpass: Option<Float64>,
    /// The band of a band-pass filter.
    pub bandpass: Option<String>,
    /// The gain of the bass.
    pub bass: Option<Float64>,
    /// The gain of the treble.
    pub treble: Option<Float64>,
    /// The parameters of an echo.
    pub echo: Option<String>,
    /// The parameters of a chorus.
    pub chorus: Option<String>,
    /// The parameters of a flanger.
    pub flanger: Option<String>,
    /// The parameters of a phaser.
    pub phaser: Option<String>,
    /// The parameters of a tremolo.
    pub tremolo: Option<String>,
    /// The parameters of a compressor.
    pub compressor: Option<String>,
    /// The parameters of the noise reduction.
    pub noise_reduction: Option<String>,
    /// The length of the fade at the start, in seconds.
    pub fade_in: Option<Float64>,
    /// The length of the fade at the end, in seconds.
    pub fade_out: Option<Float64>,
    /// The length of the cross-fade, in seconds.
    pub cross_fade: Option<Float64>,
    /// Tags for the output.
    pub tags: Option<Tags>,
    /// Filters handed on as they are.
    pub custom_filters: Option<Vec<String>>,
}

impl Params {
    /// Nothing is asked for beyond the key.
    pub open spec fn bare(self) -> bool {
        &&& self.format is None
        &&& self.codec is None
        &&& self.sample_rate is None
        &&& self.channels is None
        &&& self.bit_rate is None
        &&& self.bit_depth is None
        &&& self.quality is None
        &&& self.compression_level is None
        &&& self.start_time is None
        &&& self.duration is None
        &&& self.speed is None
        &&& self.reverse is None
        &&& self.volume is None
        &&& self.normalize is None
        &&& self.normalize_level is None
        &&& self.lowpass is None
        &&& self.highpass is None
        &&& self.bandpass is None
        &&& self.bass is None
        &&& self.treble is None
        &&& self.echo is None
        &&& self.chorus is None
        &&& self.flanger is None
        &&& self.phaser is None
        &&& self.tremolo is None
        &&& self.compressor is None
        &&& self.noise_reduction is None
        &&& self.fade_in is None
        &&& self.fade_out is None
        &&& self.cross_fade is None
        &&& self.tags is None
        &&& self.custom_filters is None
    }
}

impl Default for Params {
    /// No key and nothing asked for.
    fn default() -> (p: Params)
        ensures
            p.key@ == Seq::<char>::empty(),
            p.bare(),
    {
        Params {
            key: String::new(),
            format: None,
            codec: None,
            sample_rate: None,
            channels: None,
            bit_rate: None,
            bit_depth: None,
            quality: None,
            compression_level: None,
            start_time: None,
            duration: None,
            speed: None,
            reverse: None,
            volume: None,
            normalize: None,
            normalize_level: None,
            lowpass: None,
            highpass: None,
            bandpass: None,
            bass: None,
            treble: None,
            echo: None,
            chorus: None,
            flanger: None,
            phaser: None,
            tremolo: None,
            compressor: None,
            noise_reduction: None,
            fade_in: None,
            fade_out: None,
            cross_fade: None,
            tags: None,
            custom_filters: None,
        }
    }
}

/// Nothing is asked for exactly where no field but the key is given.
pub proof fn law_bare_means_nothing_given(p: Params)
    ensures
        p.bare() <==> p == (Params {
            key: p.key,
            format: None,
            codec: None,
            sample_rate: None,
            channels: None,
            bit_rate: None,
            bit_depth: None,
            quality: None,
            compression_level: None,
            start_time: None,
            duration: None,
            speed: None,
            reverse: None,
            volume: None,
            normalize: None,
            normalize_level: None,
            lowpass: None,
            highpass: None,
            bandpass: None,
            bass: None,
            treble: None,
            echo: None,
            chorus: None,
            flanger: None,
            phaser: None,
            tremolo: None,
            compressor: None,
            noise_reduction: None,
            fade_in: None,
            fade_out: None,
            cross_fade: None,
            tags: None,
            custom_filters: None,
        }),
{
}

} // verus!
