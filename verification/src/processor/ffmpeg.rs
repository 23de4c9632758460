//! Which work a request asks of the codec library, and with which settings.

use bytes::Bytes;
use vstd::prelude::*;
use crate::blob;
use crate::blob::{AudioBuffer, AudioFormat};
use crate::float64::{Float32, Float64, ONE};
use crate::streamingpath::params::Params;
use crate::tags::Tags;
use crate::text;

verus! {

/// -16.0, the loudness that is aimed at where none is asked for.
pub const DEFAULT_LOUDNESS: u64 = 0xC030_0000_0000_0000;

/// The texts of a list.
pub open spec fn views(v: Seq<String>) -> Seq<Seq<char>> {
    Seq::new(v.len(), |i: int| v[i]@)
}

/// The given text, where the condition holds.
pub open spec fn one_if(condition: bool, t: Seq<char>) -> Seq<Seq<char>> {
    if condition {
        seq![t]
    } else {
        Seq::empty()
    }
}

/// A filter with a number, where one is given.
pub open spec fn number_filter(prefix: Seq<char>, x: Option<Float64>, places: nat) -> Seq<
    Seq<char>,
> {
    match x {
        Some(v) => seq![prefix + v.fixed_text(places)],
        None => Seq::empty(),
    }
}

/// A filter with a number, where one is given that is not 1.
pub open spec fn changed_number_filter(prefix: Seq<char>, x: Option<Float64>, places: nat) -> Seq<
    Seq<char>,
> {
    match x {
        Some(v) => one_if(
            !v.same_number(Float64 { bits: ONE }),
            prefix + v.fixed_text(places),
        ),
        None => Seq::empty(),
    }
}

/// A filter with a text, where one is given.
pub open spec fn text_filter(prefix: Seq<char>, x: Option<String>) -> Seq<Seq<char>> {
    match x {
        Some(v) => seq![prefix + v@],
        None => Seq::empty(),
    }
}

/// The loudness to normalize to.
pub open spec fn loudness(p: Params) -> Float64 {
    match p.normalize_level {
        Some(l) => l,
        None => Float64 { bits: DEFAULT_LOUDNESS },
    }
}

/// Speed, direction, loudness and cutoffs.
pub open spec fn level_filters(p: Params) -> Seq<Seq<char>> {
    changed_number_filter("atempo="@, p.speed, 3)
        + one_if(p.reverse == Some(true), "areverse"@)
        + changed_number_filter("volume="@, p.volume, 2)
        + one_if(p.normalize == Some(true), "loudnorm=I="@ + loudness(p).fixed_text(1))
        + number_filter("lowpass=f="@, p.lowpass, 1)
        + number_filter("highpass=f="@, p.highpass, 1)
}

/// Tone, echo and modulation.
pub open spec fn tone_filters(p: Params) -> Seq<Seq<char>> {
    text_filter("bandpass="@, p.bandpass)
        + number_filter("bass=g="@, p.bass, 1)
        + number_filter("treble=g="@, p.treble, 1)
        + text_filter("aecho="@, p.echo)
        + text_filter("chorus="@, p.chorus)
        + text_filter("flanger="@, p.flanger)
}

/// Dynamics, noise and fades.
pub open spec fn shape_filters(p: Params) -> Seq<Seq<char>> {
    text_filter("aphaser="@, p.phaser)
        + text_filter("tremolo="@, p.tremolo)
        + text_filter("acompressor="@, p.compressor)
        + text_filter("anlmdn="@, p.noise_reduction)
        + number_filter("afade=t=in:d="@, p.fade_in, 3)
        + number_filter("afade=t=out:d="@, p.fade_out, 3)
        + number_filter("acrossfade=d="@, p.cross_fade, 3)
}

/// The filters of the request that are handed on as they are.
pub open spec fn custom_filters(p: Params) -> Seq<Seq<char>> {
    match p.custom_filters {
        Some(v) => views(v@),
        None => Seq::empty(),
    }
}

/// The filters that a request asks for, in the order in which they are applied.
pub open spec fn filters_of(p: Params) -> Seq<Seq<char>> {
    level_filters(p) + tone_filters(p) + shape_filters(p) + custom_filters(p)
}

/// The texts of a list with commas between them.
pub open spec fn joined(parts: Seq<Seq<char>>) -> Seq<char>
    decreases parts.len(),
{
    if parts.len() == 0 {
        Seq::empty()
    } else if parts.len() == 1 {
        parts[0]
    } else {
        joined(parts.drop_last()).push(',') + parts.last()
    }
}

/// The filter chain of a request, where it has filters.
pub open spec fn filter_chain(p: Params) -> Option<Seq<char>> {
    if filters_of(p).len() == 0 {
        None
    } else {
        Some(joined(filters_of(p)))
    }
}

/// Appending twice is appending the two together.
proof fn lemma_append(base: Seq<Seq<char>>, first: Seq<Seq<char>>, second: Seq<Seq<char>>)
    ensures
        (base + first) + second == base + (first + second),
{
    assert((base + first) + second =~= base + (first + second));
}

/// Appends a filter made of two texts.
fn push_piece(filters: &mut Vec<String>, prefix: &str, value: &str)
    ensures
        views(final(filters)@) == views(old(filters)@).push(prefix@ + value@),
{
    filters.push(text::cat(prefix, value));
    proof {
        assert(views(filters@) =~= views(old(filters)@).push(prefix@ + value@));
    }
}

/// Appends a filter, where the condition holds.
fn push_if(filters: &mut Vec<String>, condition: bool, value: &str)
    ensures
        views(final(filters)@) == views(old(filters)@) + one_if(condition, value@),
{
    if condition {
        filters.push(value.to_string());
    }
    proof {
        assert(views(filters@) =~= views(old(filters)@) + one_if(condition, value@));
    }
}

/// Appends a filter with a number, where one is given.
fn push_number(filters: &mut Vec<String>, prefix: &str, x: Option<Float64>, places: u8)
    requires
        1 <= places <= 3,
    ensures
        views(final(filters)@) == views(old(filters)@) + number_filter(
            prefix@,
            x,
            places as nat,
        ),
{
    if let Some(v) = x {
        push_piece(filters, prefix, v.to_fixed(places).as_str());
    }
    proof {
        assert(views(filters@) =~= views(old(filters)@) + number_filter(
            prefix@,
            x,
            places as nat,
        ));
    }
}

/// Appends a filter with a number, where one is given that is not 1.
fn push_changed_number(filters: &mut Vec<String>, prefix: &str, x: Option<Float64>, places: u8)
    requires
        1 <= places <= 3,
    ensures
        views(final(filters)@) == views(old(filters)@) + changed_number_filter(
            prefix@,
            x,
            places as nat,
        ),
{
    if let Some(v) = x {
        if !v.equals(Float64 { bits: ONE }) {
            push_piece(filters, prefix, v.to_fixed(places).as_str());
        }
    }
    proof {
        assert(views(filters@) =~= views(old(filters)@) + changed_number_filter(
            prefix@,
            x,
            places as nat,
        ));
    }
}

/// Appends a filter with a text, where one is given.
fn push_text(filters: &mut Vec<String>, prefix: &str, x: &Option<String>)
    ensures
        views(final(filters)@) == views(old(filters)@) + text_filter(prefix@, *x),
{
    if let Some(v) = x {
        push_piece(filters, prefix, v.as_str());
    }
    proof {
        assert(views(filters@) =~= views(old(filters)@) + text_filter(prefix@, *x));
    }
}

/// Speed, direction, loudness and cutoffs.
fn push_level_filters(filters: &mut Vec<String>, params: &Params)
    ensures
        views(final(filters)@) == views(old(filters)@) + level_filters(*params),
{
    let ghost before = views(filters@);
    push_changed_number(filters, "atempo=", params.speed, 3);
    push_if(filters, params.reverse == Some(true), "areverse");
    push_changed_number(filters, "volume=", params.volume, 2);
    let level: Float64 = match params.normalize_level {
        Some(l) => l,
        None => Float64 { bits: DEFAULT_LOUDNESS },
    };
    let loudnorm: String = text::cat("loudnorm=I=", level.to_fixed(1).as_str());
    push_if(filters, params.normalize == Some(true), loudnorm.as_str());
    push_number(filters, "lowpass=f=", params.lowpass, 1);
    push_number(filters, "highpass=f=", params.highpass, 1);
    proof {
        let f0 = changed_number_filter("atempo="@, params.speed, 3);
        let f1 = one_if(params.reverse == Some(true), "areverse"@);
        let f2 = changed_number_filter("volume="@, params.volume, 2);
        let f3 = one_if(
            params.normalize == Some(true),
            "loudnorm=I="@ + loudness(*params).fixed_text(1),
        );
        let f4 = number_filter("lowpass=f="@, params.lowpass, 1);
        let f5 = number_filter("highpass=f="@, params.highpass, 1);
        lemma_append(before, f0, f1);
        lemma_append(before, f0 + f1, f2);
        lemma_append(before, f0 + f1 + f2, f3);
        lemma_append(before, f0 + f1 + f2 + f3, f4);
        lemma_append(before, f0 + f1 + f2 + f3 + f4, f5);
    }
}

/// Tone, echo and modulation.
fn push_tone_filters(filters: &mut Vec<String>, params: &Params)
    ensures
        views(final(filters)@) == views(old(filters)@) + tone_filters(*params),
{
    let ghost before = views(filters@);
    push_text(filters, "bandpass=", &params.bandpass);
    push_number(filters, "bass=g=", params.bass, 1);
    push_number(filters, "treble=g=", params.treble, 1);
    push_text(filters, "aecho=", &params.echo);
    push_text(filters, "chorus=", &params.chorus);
    push_text(filters, "flanger=", &params.flanger);
    proof {
        let f0 = text_filter("bandpass="@, params.bandpass);
        let f1 = number_filter("bass=g="@, params.bass, 1);
        let f2 = number_filter("treble=g="@, params.treble, 1);
        let f3 = text_filter("aecho="@, params.echo);
        let f4 = text_filter("chorus="@, params.chorus);
        let f5 = text_filter("flanger="@, params.flanger);
        lemma_append(before, f0, f1);
        lemma_append(before, f0 + f1, f2);
        lemma_append(before, f0 + f1 + f2, f3);
        lemma_append(before, f0 + f1 + f2 + f3, f4);
        lemma_append(before, f0 + f1 + f2 + f3 + f4, f5);
    }
}

/// Dynamics, noise and fades.
fn push_shape_filters(filters: &mut Vec<String>, params: &Params)
    ensures
        views(final(filters)@) == views(old(filters)@) + shape_filters(*params),
{
    let ghost before = views(filters@);
    push_text(filters, "aphaser=", &params.phaser);
    push_text(filters, "tremolo=", &params.tremolo);
    push_text(filters, "acompressor=", &params.compressor);
    push_text(filters, "anlmdn=", &params.noise_reduction);
    push_number(filters, "afade=t=in:d=", params.fade_in, 3);
    push_number(filters, "afade=t=out:d=", params.fade_out, 3);
    push_number(filters, "acrossfade=d=", params.cross_fade, 3);
    proof {
        let f0 = text_filter("aphaser="@, params.phaser);
        let f1 = text_filter("tremolo="@, params.tremolo);
        let f2 = text_filter("acompressor="@, params.compressor);
        let f3 = text_filter("anlmdn="@, params.noise_reduction);
        let f4 = number_filter("afade=t=in:d="@, params.fade_in, 3);
        let f5 = number_filter("afade=t=out:d="@, params.fade_out, 3);
        let f6 = number_filter("acrossfade=d="@, params.cross_fade, 3);
        lemma_append(before, f0, f1);
        lemma_append(before, f0 + f1, f2);
        lemma_append(before, f0 + f1 + f2, f3);
        lemma_append(before, f0 + f1 + f2 + f3, f4);
        lemma_append(before, f0 + f1 + f2 + f3 + f4, f5);
        lemma_append(before, f0 + f1 + f2 + f3 + f4 + f5, f6);
    }
}

/// Appends the filters that are handed on as they are.
fn push_custom_filters(filters: &mut Vec<String>, params: &Params)
    ensures
        views(final(filters)@) == views(old(filters)@) + custom_filters(*params),
{
    if let Some(v) = &params.custom_filters {
        let mut i: usize = 0;
        let ghost before = views(filters@);
        proof {
            assert(before + views(v@.take(0)) =~= before);
        }
        while i < v.len()
            invariant
                i <= v.len(),
                views(filters@) == before + views(v@.take(i as int)),
            decreases v.len() - i,
        {
            push_if(filters, true, v[i].as_str());
            i += 1;
            proof {
                assert(views(filters@) =~= before + views(v@.take(i as int)));
            }
        }
        proof {
            assert(v@.take(i as int) =~= v@);
        }
    }
    proof {
        assert(views(filters@) =~= views(old(filters)@) + custom_filters(*params));
    }
}

/// Joins texts with commas.
fn join_commas(parts: &Vec<String>) -> (s: String)
    ensures
        s@ == joined(views(parts@)),
{
    let mut s: String = String::new();
    let mut i: usize = 0;
    proof {
        assert(views(parts@).take(0) =~= Seq::<Seq<char>>::empty());
    }
    while i < parts.len()
        invariant
            i <= parts.len(),
            s@ == joined(views(parts@).take(i as int)),
        decreases parts.len() - i,
    {
        if i > 0 {
            text::push_char(&mut s, ',');
        }
        s.append(parts[i].as_str());
        proof {
            let t = views(parts@).take(i + 1);
            assert(t.drop_last() =~= views(parts@).take(i as int));
            assert(t.last() == parts@[i as int]@);
            assert(s@ =~= joined(t));
        }
        i += 1;
    }
    proof {
        assert(views(parts@).take(i as int) =~= views(parts@));
    }
    s
}

/// Writes the filter chain of a request.
pub fn collect_filters(params: &Params) -> (r: Option<String>)
    ensures
        match r {
            Some(s) => filter_chain(*params) == Some(s@),
            None => filter_chain(*params) is None,
        },
{
    let mut filters: Vec<String> = Vec::new();
    push_level_filters(&mut filters, params);
    push_tone_filters(&mut filters, params);
    push_shape_filters(&mut filters, params);
    push_custom_filters(&mut filters, params);
    proof {
        assert(views(filters@) =~= filters_of(*params));
    }
    if filters.len() == 0 {
        None
    } else {
        Some(join_commas(&filters))
    }
}

/// Whether a request asks for nothing but the audio as it is.
pub open spec fn passthrough(kind: AudioFormat, p: Params) -> bool {
    &&& p.format is Some ==> p.format->Some_0 == kind
    &&& p.codec is None
    &&& p.sample_rate is None
    &&& p.channels is None
    &&& p.bit_rate is None
    &&& p.bit_depth is None
    &&& p.quality is None
    &&& p.compression_level is None
    &&& p.start_time is None
    &&& p.duration is None
    &&& p.tags is Some ==> p.tags->Some_0.entries@.len() == 0
    &&& filters_of(p).len() == 0
}

/// Whether a request asks for nothing but the audio as it is.
pub fn is_passthrough_request(input: &AudioBuffer, params: &Params) -> (b: bool)
    ensures
        b == passthrough(input.kind, *params),
{
    let same_format: bool = match params.format {
        Some(f) => f == input.format(),
        None => true,
    };
    let no_tags: bool = match &params.tags {
        Some(t) => t.is_empty(),
        None => true,
    };
    same_format && params.codec.is_none() && params.sample_rate.is_none()
        && params.channels.is_none() && params.bit_rate.is_none() && params.bit_depth.is_none()
        && params.quality.is_none() && params.compression_level.is_none()
        && params.start_time.is_none() && params.duration.is_none() && no_tags && collect_filters(
        params,
    ).is_none()
}

/// What the output is to be encoded as.
pub struct OutputFormat {
    /// The muxer.
    pub format: String,
    /// The encoder.
    pub codec: Option<String>,
    /// The sample rate in Hz.
    pub sample_rate: Option<i32>,
    /// The number of channels.
    pub channels: Option<i32>,
    /// The bit rate in bits per second.
    pub bit_rate: Option<i64>,
    /// The encoding quality.
    pub quality: Option<Float32>,
    /// The compression level.
    pub compression_level: Option<i32>,
}

/// Whether `output` is the format of `base` with the settings of the request.
pub open spec fn output_of(base: OutputFormat, p: Params, output: OutputFormat) -> bool {
    &&& output.format == base.format
    &&& output.codec == if p.codec is Some {
        p.codec
    } else {
        base.codec
    }
    &&& output.sample_rate == p.sample_rate
    &&& output.channels == p.channels
    &&& match p.bit_rate {
        Some(r) => output.bit_rate is Some && output.bit_rate->Some_0 == r * 1000,
        None => output.bit_rate is None,
    }
    &&& output.quality == match p.quality {
        Some(q) => Some(q.narrowed()),
        None => None,
    }
    &&& output.compression_level == p.compression_level
}

/// Sets what the request asks for in the settings of its output format. The bit rate of
/// the request is in kilobits; its quality is handed on in single precision.
pub fn audio_format_to_output(base: OutputFormat, params: &Params) -> (output: OutputFormat)
    ensures
        output_of(base, *params, output),
{
    let codec: Option<String> = match &params.codec {
        Some(c) => Some(c.clone()),
        None => base.codec,
    };
    let bit_rate: Option<i64> = match params.bit_rate {
        Some(r) => Some(r as i64 * 1000),
        None => None,
    };
    let quality: Option<Float32> = match params.quality {
        Some(q) => Some(q.narrow()),
        None => None,
    };
    OutputFormat {
        format: base.format,
        codec,
        sample_rate: params.sample_rate,
        channels: params.channels,
        bit_rate,
        quality,
        compression_level: params.compression_level,
    }
}

/// The format that a request asks for, or MP3.
pub open spec fn result_format(p: Params) -> AudioFormat {
    match p.format {
        Some(f) => f,
        None => AudioFormat::Mp3,
    }
}

/// The format that a request asks for, or MP3.
pub fn requested_format(params: &Params) -> (f: AudioFormat)
    ensures
        f == result_format(*params),
{
    match params.format {
        Some(f) => f,
        None => AudioFormat::Mp3,
    }
}

/// Work for the codec library.
pub struct ProcessJob {
    /// The audio to process.
    pub input: Bytes,
    /// The format of the result.
    pub output_format: AudioFormat,
    /// What the result is to be encoded as.
    pub output: OutputFormat,
    /// The filter chain.
    pub filters: Option<String>,
    /// Tags for the result.
    pub metadata: Tags,
    /// The start in seconds.
    pub start_time: Option<Float64>,
    /// The duration in seconds.
    pub duration: Option<Float64>,
}

impl ProcessJob {
    /// Whether the job is the one that a request asks for. `base` is what the codec library
    /// encodes the format of the result as.
    pub open spec fn serves(self, input: AudioBuffer, p: Params, base: OutputFormat) -> bool {
        &&& blob::contents(self.input) == input.bytes()
        &&& self.output_format == result_format(p)
        &&& output_of(base, p, self.output)
        &&& match self.filters {
            Some(s) => filter_chain(p) == Some(s@),
            None => filter_chain(p) is None,
        }
        &&& self.metadata.entries@ == match p.tags {
            Some(t) => t.entries@,
            None => Seq::empty(),
        }
        &&& self.start_time == p.start_time
        &&& self.duration == p.duration
    }

    /// The result of the job: what the codec library wrote, in the format that was
    /// asked for.
    pub fn finish(self, processed: Vec<u8>) -> (b: AudioBuffer)
        ensures
            b.bytes() == processed@,
            b.kind == self.output_format,
    {
        AudioBuffer::from_bytes_with_format(processed, self.output_format)
    }
}

/// How a request is served.
pub enum ProcessPlan {
    /// With the audio as it is.
    Passthrough(AudioBuffer),
    /// By the codec library.
    Run(ProcessJob),
}

/// The job of a request that asks for work.
fn job_of(input: &AudioBuffer, params: &Params, base: OutputFormat) -> (j: ProcessJob)
    ensures
        j.serves(*input, *params, base),
{
    let metadata: Tags = match &params.tags {
        Some(t) => t.copy(),
        None => Tags::new(),
    };
    ProcessJob {
        input: blob::bytes_clone(&input.data),
        output_format: requested_format(params),
        output: audio_format_to_output(base, params),
        filters: collect_filters(params),
        metadata,
        start_time: params.start_time,
        duration: params.duration,
    }
}

/// Plans the processing of `input` into one buffer. `base` is what the codec library encodes
/// the format of the result as.
pub fn process_audio(input: &AudioBuffer, params: &Params, base: OutputFormat) -> (plan:
    ProcessPlan)
    ensures
        match plan {
            ProcessPlan::Passthrough(b) => {
                &&& passthrough(input.kind, *params)
                &&& b.bytes() == input.bytes()
                &&& b.kind == input.kind
            },
            ProcessPlan::Run(job) => {
                &&& !passthrough(input.kind, *params)
                &&& job.serves(*input, *params, base)
            },
        },
{
    if is_passthrough_request(input, params) {
        return ProcessPlan::Passthrough(input.share());
    }
    ProcessPlan::Run(job_of(input, params, base))
}

/// How a request is streamed.
pub enum StreamPlan {
    /// As one chunk.
    Once(Bytes),
    /// As the codec library writes it.
    Run(ProcessJob),
}

/// Plans the processing of `input` into a stream of chunks. `base` is what the codec library
/// encodes the format of the result as.
pub fn process_audio_streaming(input: &AudioBuffer, params: &Params, base: OutputFormat) -> (plan:
    StreamPlan)
    ensures
        match plan {
            StreamPlan::Once(b) => {
                &&& passthrough(input.kind, *params)
                &&& blob::contents(b) == input.bytes()
            },
            StreamPlan::Run(job) => {
                &&& !passthrough(input.kind, *params)
                &&& job.serves(*input, *params, base)
            },
        },
{
    if is_passthrough_request(input, params) {
        return StreamPlan::Once(blob::bytes_clone(&input.data));
    }
    StreamPlan::Run(job_of(input, params, base))
}

/// A request that gives nothing but a key asks for the audio as it is, whatever its
/// format.
pub proof fn law_bare_request_passes_through(kind: AudioFormat, p: Params)
    requires
        p.bare(),
    ensures
        passthrough(kind, p),
        filter_chain(p) is None,
{
}

/// A request passes through in one format alone, once it names a format.
pub proof fn law_transcode_is_no_passthrough(kind: AudioFormat, p: Params)
    requires
        p.format is Some,
        p.format->Some_0 != kind,
    ensures
        !passthrough(kind, p),
{
}

/// Switches that are off and factors of 1 ask for no filter.
pub proof fn law_neutral_values_ask_for_nothing(p: Params)
    requires
        p.speed is Some ==> p.speed->Some_0.same_number(Float64 { bits: ONE }),
        p.volume is Some ==> p.volume->Some_0.same_number(Float64 { bits: ONE }),
        p.reverse != Some(true),
        p.normalize != Some(true),
    ensures
        level_filters(p) == number_filter("lowpass=f="@, p.lowpass, 1) + number_filter(
            "highpass=f="@,
            p.highpass,
            1,
        ),
{
    let (low, high) = (
        number_filter("lowpass=f="@, p.lowpass, 1),
        number_filter("highpass=f="@, p.highpass, 1),
    );
    assert(level_filters(p) =~= low + high);
}

/// Where a request has filters, their texts stand in the chain in order, one comma
/// between each and the next.
pub proof fn law_chain_of_appended_filter(parts: Seq<Seq<char>>, last: Seq<char>)
    requires
        parts.len() > 0,
    ensures
        joined(parts.push(last)) == joined(parts).push(',') + last,
{
    assert(parts.push(last).drop_last() =~= parts);
}

/// What is appended stands behind what was there.
proof fn lemma_kept(a: Seq<Seq<char>>, b: Seq<Seq<char>>)
    ensures
        (a + b).len() == a.len() + b.len(),
        forall|i: int| 0 <= i < a.len() ==> #[trigger] (a + b)[i] == a[i],
        forall|i: int| 0 <= i < b.len() ==> (a + b)[a.len() + i] == #[trigger] b[i],
{
}

/// 1 where the condition holds, 0 where it does not.
pub open spec fn counted(condition: bool) -> int {
    if condition {
        1
    } else {
        0
    }
}

/// Whether a factor is given and is not 1.
pub open spec fn changes(x: Option<Float64>) -> bool {
    x is Some && !x->Some_0.same_number(Float64 { bits: 0x3FF0_0000_0000_0000 })
}

/// How many of the level settings ask for a filter.
pub open spec fn level_count(p: Params) -> int {
    counted(changes(p.speed))
        + counted(p.reverse == Some(true))
        + counted(changes(p.volume))
        + counted(p.normalize == Some(true))
        + counted(p.lowpass is Some)
        + counted(p.highpass is Some)
}

/// How many of the tone settings ask for a filter.
pub open spec fn tone_count(p: Params) -> int {
    counted(p.bandpass is Some)
        + counted(p.bass is Some)
        + counted(p.treble is Some)
        + counted(p.echo is Some)
        + counted(p.chorus is Some)
        + counted(p.flanger is Some)
}

/// How many of the shape settings ask for a filter.
pub open spec fn shape_count(p: Params) -> int {
    counted(p.phaser is Some)
        + counted(p.tremolo is Some)
        + counted(p.compressor is Some)
        + counted(p.noise_reduction is Some)
        + counted(p.fade_in is Some)
        + counted(p.fade_out is Some)
        + counted(p.cross_fade is Some)
}

/// The level settings that are given stand one after the other.
proof fn lemma_level_positions(p: Params)
    ensures
        ({
            let f = level_filters(p);
            let n1 = counted(changes(p.speed));
            let n2 = n1 + counted(p.reverse == Some(true));
            let n3 = n2 + counted(changes(p.volume));
            let n4 = n3 + counted(p.normalize == Some(true));
            let n5 = n4 + counted(p.lowpass is Some);
            let n6 = n5 + counted(p.highpass is Some);
            &&& f.len() == n6
            &&& changes(p.speed) ==> f[0] == "atempo="@ + p.speed->Some_0.fixed_text(3)
            &&& p.reverse == Some(true) ==> f[n1] == "areverse"@
            &&& changes(p.volume) ==> f[n2] == "volume="@ + p.volume->Some_0.fixed_text(2)
            &&& p.normalize == Some(true) && p.normalize_level is Some ==> f[n3]
                == "loudnorm=I="@ + p.normalize_level->Some_0.fixed_text(1)
            &&& p.normalize == Some(true) && p.normalize_level is None ==> f[n3]
                == "loudnorm=I="@ + (Float64 { bits: 0xC030_0000_0000_0000 }).fixed_text(1)
            &&& p.lowpass is Some ==> f[n4] == "lowpass=f="@ + p.lowpass->Some_0.fixed_text(1)
            &&& p.highpass is Some ==> f[n5] == "highpass=f="@ + p.highpass->Some_0.fixed_text(1)
        }),
{
    let x1 = changed_number_filter("atempo="@, p.speed, 3);
    let g1 = x1;
    assert(x1.len() == counted(changes(p.speed)));
    let x2 = one_if(p.reverse == Some(true), "areverse"@);
    let g2 = g1 + x2;
    assert(x2.len() == counted(p.reverse == Some(true)));
    let x3 = changed_number_filter("volume="@, p.volume, 2);
    let g3 = g2 + x3;
    assert(x3.len() == counted(changes(p.volume)));
    let x4 = one_if(p.normalize == Some(true), "loudnorm=I="@ + loudness(p).fixed_text(1));
    let g4 = g3 + x4;
    assert(x4.len() == counted(p.normalize == Some(true)));
    let x5 = number_filter("lowpass=f="@, p.lowpass, 1);
    let g5 = g4 + x5;
    assert(x5.len() == counted(p.lowpass is Some));
    let x6 = number_filter("highpass=f="@, p.highpass, 1);
    let g6 = g5 + x6;
    assert(x6.len() == counted(p.highpass is Some));
    lemma_kept(g1, x2);
    lemma_kept(g2, x3);
    lemma_kept(g3, x4);
    lemma_kept(g4, x5);
    lemma_kept(g5, x6);
    assert(level_filters(p) == g6);
    if x1.len() == 1 {
        assert(g1[0] == x1[0]);
        assert(g2[0] == x1[0]);
        assert(g3[0] == x1[0]);
        assert(g4[0] == x1[0]);
        assert(g5[0] == x1[0]);
        assert(g6[0] == x1[0]);
    }
    if x2.len() == 1 {
        assert(g2[g1.len() as int] == x2[0]);
        assert(g3[g1.len() as int] == x2[0]);
        assert(g4[g1.len() as int] == x2[0]);
        assert(g5[g1.len() as int] == x2[0]);
        assert(g6[g1.len() as int] == x2[0]);
    }
    if x3.len() == 1 {
        assert(g3[g2.len() as int] == x3[0]);
        assert(g4[g2.len() as int] == x3[0]);
        assert(g5[g2.len() as int] == x3[0]);
        assert(g6[g2.len() as int] == x3[0]);
    }
    if x4.len() == 1 {
        assert(g4[g3.len() as int] == x4[0]);
        assert(g5[g3.len() as int] == x4[0]);
        assert(g6[g3.len() as int] == x4[0]);
    }
    if x5.len() == 1 {
        assert(g5[g4.len() as int] == x5[0]);
        assert(g6[g4.len() as int] == x5[0]);
    }
    if x6.len() == 1 {
        assert(g6[g5.len() as int] == x6[0]);
    }
}

/// Speed, direction, volume, loudness and cutoffs are applied first, in this order, each once
/// and only where it is given.
pub proof fn law_level_settings_are_applied(p: Params)
    ensures
        ({
            let f = filters_of(p);
            let n1 = counted(changes(p.speed));
            let n2 = n1 + counted(p.reverse == Some(true));
            let n3 = n2 + counted(changes(p.volume));
            let n4 = n3 + counted(p.normalize == Some(true));
            let n5 = n4 + counted(p.lowpass is Some);
            let n6 = n5 + counted(p.highpass is Some);
            &&& changes(p.speed) ==> f[0] == "atempo="@ + p.speed->Some_0.fixed_text(3)
            &&& p.reverse == Some(true) ==> f[n1] == "areverse"@
            &&& changes(p.volume) ==> f[n2] == "volume="@ + p.volume->Some_0.fixed_text(2)
            &&& p.normalize == Some(true) && p.normalize_level is Some ==> f[n3]
                == "loudnorm=I="@ + p.normalize_level->Some_0.fixed_text(1)
            &&& p.normalize == Some(true) && p.normalize_level is None ==> f[n3]
                == "loudnorm=I="@ + (Float64 { bits: 0xC030_0000_0000_0000 }).fixed_text(1)
            &&& p.lowpass is Some ==> f[n4] == "lowpass=f="@ + p.lowpass->Some_0.fixed_text(1)
            &&& p.highpass is Some ==> f[n5] == "highpass=f="@ + p.highpass->Some_0.fixed_text(1)
        }),
{
    lemma_level_positions(p);
    lemma_tone_positions(p);
    lemma_shape_positions(p);
    let (a, b, c, d) = (level_filters(p), tone_filters(p), shape_filters(p), custom_filters(p));
    lemma_kept(a, b);
    lemma_kept(a + b, c);
    lemma_kept(a + b + c, d);
    let f = filters_of(p);
    let s = level_filters(p);
    assert forall|i: int| 0 <= i < s.len() implies f[i] == #[trigger] s[i] by {
        assert((a + b + c)[i] == s[i]);
    }
}

/// The tone settings that are given stand one after the other.
proof fn lemma_tone_positions(p: Params)
    ensures
        ({
            let f = tone_filters(p);
            let n1 = counted(p.bandpass is Some);
            let n2 = n1 + counted(p.bass is Some);
            let n3 = n2 + counted(p.treble is Some);
            let n4 = n3 + counted(p.echo is Some);
            let n5 = n4 + counted(p.chorus is Some);
            let n6 = n5 + counted(p.flanger is Some);
            &&& f.len() == n6
            &&& p.bandpass is Some ==> f[0] == "bandpass="@ + p.bandpass->Some_0@
            &&& p.bass is Some ==> f[n1] == "bass=g="@ + p.bass->Some_0.fixed_text(1)
            &&& p.treble is Some ==> f[n2] == "treble=g="@ + p.treble->Some_0.fixed_text(1)
            &&& p.echo is Some ==> f[n3] == "aecho="@ + p.echo->Some_0@
            &&& p.chorus is Some ==> f[n4] == "chorus="@ + p.chorus->Some_0@
            &&& p.flanger is Some ==> f[n5] == "flanger="@ + p.flanger->Some_0@
        }),
{
    let x1 = text_filter("bandpass="@, p.bandpass);
    let g1 = x1;
    assert(x1.len() == counted(p.bandpass is Some));
    let x2 = number_filter("bass=g="@, p.bass, 1);
    let g2 = g1 + x2;
    assert(x2.len() == counted(p.bass is Some));
    let x3 = number_filter("treble=g="@, p.treble, 1);
    let g3 = g2 + x3;
    assert(x3.len() == counted(p.treble is Some));
    let x4 = text_filter("aecho="@, p.echo);
    let g4 = g3 + x4;
    assert(x4.len() == counted(p.echo is Some));
    let x5 = text_filter("chorus="@, p.chorus);
    let g5 = g4 + x5;
    assert(x5.len() == counted(p.chorus is Some));
    let x6 = text_filter("flanger="@, p.flanger);
    let g6 = g5 + x6;
    assert(x6.len() == counted(p.flanger is Some));
    lemma_kept(g1, x2);
    lemma_kept(g2, x3);
    lemma_kept(g3, x4);
    lemma_kept(g4, x5);
    lemma_kept(g5, x6);
    assert(tone_filters(p) == g6);
    if x1.len() == 1 {
        assert(g1[0] == x1[0]);
        assert(g2[0] == x1[0]);
        assert(g3[0] == x1[0]);
        assert(g4[0] == x1[0]);
        assert(g5[0] == x1[0]);
        assert(g6[0] == x1[0]);
    }
    if x2.len() == 1 {
        assert(g2[g1.len() as int] == x2[0]);
        assert(g3[g1.len() as int] == x2[0]);
        assert(g4[g1.len() as int] == x2[0]);
        assert(g5[g1.len() as int] == x2[0]);
        assert(g6[g1.len() as int] == x2[0]);
    }
    if x3.len() == 1 {
        assert(g3[g2.len() as int] == x3[0]);
        assert(g4[g2.len() as int] == x3[0]);
        assert(g5[g2.len() as int] == x3[0]);
        assert(g6[g2.len() as int] == x3[0]);
    }
    if x4.len() == 1 {
        assert(g4[g3.len() as int] == x4[0]);
        assert(g5[g3.len() as int] == x4[0]);
        assert(g6[g3.len() as int] == x4[0]);
    }
    if x5.len() == 1 {
        assert(g5[g4.len() as int] == x5[0]);
        assert(g6[g4.len() as int] == x5[0]);
    }
    if x6.len() == 1 {
        assert(g6[g5.len() as int] == x6[0]);
    }
}

/// Band, bass, treble, echo, chorus and flanger are applied after the levels, in this order,
/// each once and only where it is given.
pub proof fn law_tone_settings_are_applied(p: Params)
    ensures
        ({
            let f = filters_of(p);
            let n1 = counted(p.bandpass is Some);
            let n2 = n1 + counted(p.bass is Some);
            let n3 = n2 + counted(p.treble is Some);
            let n4 = n3 + counted(p.echo is Some);
            let n5 = n4 + counted(p.chorus is Some);
            let n6 = n5 + counted(p.flanger is Some);
            &&& p.bandpass is Some ==> f[level_count(p)] == "bandpass="@ + p.bandpass->Some_0@
            &&& p.bass is Some ==> f[level_count(p) + n1]
                == "bass=g="@ + p.bass->Some_0.fixed_text(1)
            &&& p.treble is Some ==> f[level_count(p) + n2]
                == "treble=g="@ + p.treble->Some_0.fixed_text(1)
            &&& p.echo is Some ==> f[level_count(p) + n3] == "aecho="@ + p.echo->Some_0@
            &&& p.chorus is Some ==> f[level_count(p) + n4] == "chorus="@ + p.chorus->Some_0@
            &&& p.flanger is Some ==> f[level_count(p) + n5] == "flanger="@ + p.flanger->Some_0@
        }),
{
    lemma_level_positions(p);
    lemma_tone_positions(p);
    lemma_shape_positions(p);
    let (a, b, c, d) = (level_filters(p), tone_filters(p), shape_filters(p), custom_filters(p));
    lemma_kept(a, b);
    lemma_kept(a + b, c);
    lemma_kept(a + b + c, d);
    let f = filters_of(p);
    let s = tone_filters(p);
    assert forall|i: int| 0 <= i < s.len() implies f[level_count(p) + i] == #[trigger] s[i] by {
        assert((a + b + c)[level_count(p) + i] == s[i]);
    }
}

/// The shape settings that are given stand one after the other.
proof fn lemma_shape_positions(p: Params)
    ensures
        ({
            let f = shape_filters(p);
            let n1 = counted(p.phaser is Some);
            let n2 = n1 + counted(p.tremolo is Some);
            let n3 = n2 + counted(p.compressor is Some);
            let n4 = n3 + counted(p.noise_reduction is Some);
            let n5 = n4 + counted(p.fade_in is Some);
            let n6 = n5 + counted(p.fade_out is Some);
            let n7 = n6 + counted(p.cross_fade is Some);
            &&& f.len() == n7
            &&& p.phaser is Some ==> f[0] == "aphaser="@ + p.phaser->Some_0@
            &&& p.tremolo is Some ==> f[n1] == "tremolo="@ + p.tremolo->Some_0@
            &&& p.compressor is Some ==> f[n2] == "acompressor="@ + p.compressor->Some_0@
            &&& p.noise_reduction is Some ==> f[n3] == "anlmdn="@ + p.noise_reduction->Some_0@
            &&& p.fade_in is Some ==> f[n4] == "afade=t=in:d="@ + p.fade_in->Some_0.fixed_text(3)
            &&& p.fade_out is Some ==> f[n5] == "afade=t=out:d="@ + p.fade_out->Some_0.fixed_text(3)
            &&& p.cross_fade is Some ==> f[n6]
                == "acrossfade=d="@ + p.cross_fade->Some_0.fixed_text(3)
        }),
{
    let x1 = text_filter("aphaser="@, p.phaser);
    let g1 = x1;
    assert(x1.len() == counted(p.phaser is Some));
    let x2 = text_filter("tremolo="@, p.tremolo);
    let g2 = g1 + x2;
    assert(x2.len() == counted(p.tremolo is Some));
    let x3 = text_filter("acompressor="@, p.compressor);
    let g3 = g2 + x3;
    assert(x3.len() == counted(p.compressor is Some));
    let x4 = text_filter("anlmdn="@, p.noise_reduction);
    let g4 = g3 + x4;
    assert(x4.len() == counted(p.noise_reduction is Some));
    let x5 = number_filter("afade=t=in:d="@, p.fade_in, 3);
    let g5 = g4 + x5;
    assert(x5.len() == counted(p.fade_in is Some));
    let x6 = number_filter("afade=t=out:d="@, p.fade_out, 3);
    let g6 = g5 + x6;
    assert(x6.len() == counted(p.fade_out is Some));
    let x7 = number_filter("acrossfade=d="@, p.cross_fade, 3);
    let g7 = g6 + x7;
    assert(x7.len() == counted(p.cross_fade is Some));
    lemma_kept(g1, x2);
    lemma_kept(g2, x3);
    lemma_kept(g3, x4);
    lemma_kept(g4, x5);
    lemma_kept(g5, x6);
    lemma_kept(g6, x7);
    assert(shape_filters(p) == g7);
    if x1.len() == 1 {
        assert(g1[0] == x1[0]);
        assert(g2[0] == x1[0]);
        assert(g3[0] == x1[0]);
        assert(g4[0] == x1[0]);
        assert(g5[0] == x1[0]);
        assert(g6[0] == x1[0]);
        assert(g7[0] == x1[0]);
    }
    if x2.len() == 1 {
        assert(g2[g1.len() as int] == x2[0]);
        assert(g3[g1.len() as int] == x2[0]);
        assert(g4[g1.len() as int] == x2[0]);
        assert(g5[g1.len() as int] == x2[0]);
        assert(g6[g1.len() as int] == x2[0]);
        assert(g7[g1.len() as int] == x2[0]);
    }
    if x3.len() == 1 {
        assert(g3[g2.len() as int] == x3[0]);
        assert(g4[g2.len() as int] == x3[0]);
        assert(g5[g2.len() as int] == x3[0]);
        assert(g6[g2.len() as int] == x3[0]);
        assert(g7[g2.len() as int] == x3[0]);
    }
    if x4.len() == 1 {
        assert(g4[g3.len() as int] == x4[0]);
        assert(g5[g3.len() as int] == x4[0]);
        assert(g6[g3.len() as int] == x4[0]);
        assert(g7[g3.len() as int] == x4[0]);
    }
    if x5.len() == 1 {
        assert(g5[g4.len() as int] == x5[0]);
        assert(g6[g4.len() as int] == x5[0]);
        assert(g7[g4.len() as int] == x5[0]);
    }
    if x6.len() == 1 {
        assert(g6[g5.len() as int] == x6[0]);
        assert(g7[g5.len() as int] == x6[0]);
    }
    if x7.len() == 1 {
        assert(g7[g6.len() as int] == x7[0]);
    }
}

/// Phaser, tremolo, compressor, noise reduction and fades are applied after the tone, in this
/// order, each once and only where it is given.
pub proof fn law_shape_settings_are_applied(p: Params)
    ensures
        ({
            let f = filters_of(p);
            let n1 = counted(p.phaser is Some);
            let n2 = n1 + counted(p.tremolo is Some);
            let n3 = n2 + counted(p.compressor is Some);
            let n4 = n3 + counted(p.noise_reduction is Some);
            let n5 = n4 + counted(p.fade_in is Some);
            let n6 = n5 + counted(p.fade_out is Some);
            let n7 = n6 + counted(p.cross_fade is Some);
            &&& p.phaser is Some ==> f[level_count(p) + tone_count(p)]
                == "aphaser="@ + p.phaser->Some_0@
            &&& p.tremolo is Some ==> f[level_count(p) + tone_count(p) + n1]
                == "tremolo="@ + p.tremolo->Some_0@
            &&& p.compressor is Some ==> f[level_count(p) + tone_count(p) + n2]
                == "acompressor="@ + p.compressor->Some_0@
            &&& p.noise_reduction is Some ==> f[level_count(p) + tone_count(p) + n3]
                == "anlmdn="@ + p.noise_reduction->Some_0@
            &&& p.fade_in is Some ==> f[level_count(p) + tone_count(p) + n4]
                == "afade=t=in:d="@ + p.fade_in->Some_0.fixed_text(3)
            &&& p.fade_out is Some ==> f[level_count(p) + tone_count(p) + n5]
                == "afade=t=out:d="@ + p.fade_out->Some_0.fixed_text(3)
            &&& p.cross_fade is Some ==> f[level_count(p) + tone_count(p) + n6]
                == "acrossfade=d="@ + p.cross_fade->Some_0.fixed_text(3)
        }),
{
    lemma_level_positions(p);
    lemma_tone_positions(p);
    lemma_shape_positions(p);
    let (a, b, c, d) = (level_filters(p), tone_filters(p), shape_filters(p), custom_filters(p));
    lemma_kept(a, b);
    lemma_kept(a + b, c);
    lemma_kept(a + b + c, d);
    let f = filters_of(p);
    let s = shape_filters(p);
    assert forall|i: int| 0 <= i < s.len() implies f[level_count(p) + tone_count(p) + i]
        == #[trigger] s[i] by {
        assert((a + b + c)[level_count(p) + tone_count(p) + i] == s[i]);
    }
}

/// There is one filter for each setting that asks for one, and behind them the filters of the
/// request's own, as they are and in the order given; nothing else is applied.
pub proof fn law_each_setting_is_one_filter(p: Params)
    ensures
        ({
            let f = filters_of(p);
            let n = level_count(p) + tone_count(p) + shape_count(p);
            &&& p.custom_filters is None ==> f.len() == n
            &&& p.custom_filters is Some ==> f.len() == n + p.custom_filters->Some_0@.len()
            &&& p.custom_filters is Some ==> forall|i: int|
                0 <= i < p.custom_filters->Some_0@.len() ==> f[n + i]
                    == #[trigger] p.custom_filters->Some_0@[i]@
        }),
{
    lemma_level_positions(p);
    lemma_tone_positions(p);
    lemma_shape_positions(p);
    let (a, b, c, d) = (level_filters(p), tone_filters(p), shape_filters(p), custom_filters(p));
    lemma_kept(a, b);
    lemma_kept(a + b, c);
    lemma_kept(a + b + c, d);
    let n = (a + b + c).len() as int;
    if p.custom_filters is Some {
        assert forall|i: int| 0 <= i < p.custom_filters->Some_0@.len() implies filters_of(p)[n + i]
            == #[trigger] p.custom_filters->Some_0@[i]@ by {
            assert(d[i] == p.custom_filters->Some_0@[i]@);
        }
    }
}

/// A request is passed through exactly where it names no format or the format that the audio
/// is in, and gives no encoding setting, no part of the audio, no tag and no filter: each of
/// these alone asks for work, whatever the others are.
pub proof fn law_passthrough_asks_for_nothing(kind: AudioFormat, p: Params)
    ensures
        passthrough(kind, p) <==> ({
            &&& p.format == None::<AudioFormat> || p.format == Some(kind)
            &&& p.codec is None
            &&& p.sample_rate is None
            &&& p.channels is None
            &&& p.bit_rate is None
            &&& p.bit_depth is None
            &&& p.quality is None
            &&& p.compression_level is None
            &&& p.start_time is None
            &&& p.duration is None
            &&& p.tags is None || p.tags->Some_0.entries@.len() == 0
            &&& !changes(p.speed)
            &&& p.reverse != Some(true)
            &&& !changes(p.volume)
            &&& p.normalize != Some(true)
            &&& p.lowpass is None
            &&& p.highpass is None
            &&& p.bandpass is None
            &&& p.bass is None
            &&& p.treble is None
            &&& p.echo is None
            &&& p.chorus is None
            &&& p.flanger is None
            &&& p.phaser is None
            &&& p.tremolo is None
            &&& p.compressor is None
            &&& p.noise_reduction is None
            &&& p.fade_in is None
            &&& p.fade_out is None
            &&& p.cross_fade is None
            &&& p.custom_filters is None || p.custom_filters->Some_0@.len() == 0
        }),
        filter_chain(p) is None <==> filters_of(p).len() == 0,
{
    law_each_setting_is_one_filter(p);
}

/// A chain of one filter is that filter.
pub proof fn law_chain_of_one_filter(p: Params)
    requires
        filters_of(p).len() == 1,
    ensures
        filter_chain(p) == Some(filters_of(p)[0]),
{
}

/// The chain of two or more filters is the chain of all but the last, a comma and the last.
pub proof fn law_chain_of_filters(p: Params, q: Params, last: Seq<char>)
    requires
        filters_of(p).len() > 0,
        filters_of(q) == filters_of(p).push(last),
    ensures
        filter_chain(q) == Some(filter_chain(p)->Some_0 + seq![','] + last),
{
    law_chain_of_appended_filter(filters_of(p), last);
    assert(joined(filters_of(q)) =~= joined(filters_of(p)) + seq![','] + last);
}

/// The output keeps the container that the codec library has for it, and every setting of the
/// request stands in it; the bit rate is given in thousands.
pub proof fn law_output_holds_the_settings(base: OutputFormat, p: Params, output: OutputFormat)
    requires
        output_of(base, p, output),
    ensures
        output.format == base.format,
        p.codec is Some ==> output.codec == p.codec,
        p.codec is None ==> output.codec == base.codec,
        output.sample_rate == p.sample_rate,
        output.channels == p.channels,
        output.bit_rate is Some <==> p.bit_rate is Some,
        p.bit_rate is Some ==> output.bit_rate->Some_0 == 1000 * p.bit_rate->Some_0,
        output.quality is Some <==> p.quality is Some,
        p.quality is Some ==> output.quality->Some_0 == p.quality->Some_0.narrowed(),
        output.compression_level == p.compression_level,
{
}

/// A job works on the audio it was made for, from the start and for the duration asked for,
/// with the tags and the filters asked for, and into the format asked for or MP3.
pub proof fn law_job_holds_the_request(
    job: ProcessJob,
    input: AudioBuffer,
    p: Params,
    base: OutputFormat,
)
    requires
        job.serves(input, p, base),
    ensures
        blob::contents(job.input) == blob::contents(input.data),
        p.format is Some ==> job.output_format == p.format->Some_0,
        p.format is None ==> job.output_format == AudioFormat::Mp3,
        output_of(base, p, job.output),
        job.filters is Some <==> filters_of(p).len() > 0,
        job.filters is Some ==> job.filters->Some_0@ == joined(filters_of(p)),
        p.tags is Some ==> job.metadata.entries@ == p.tags->Some_0.entries@,
        p.tags is None ==> job.metadata.entries@.len() == 0,
        job.start_time == p.start_time,
        job.duration == p.duration,
{
}

/// The texts of a list are those of its items, in order.
pub proof fn law_texts_are_seen_as_they_are(v: Seq<String>, i: int)
    requires
        0 <= i < v.len(),
    ensures
        views(v).len() == v.len(),
        views(v)[i] == v[i]@,
{
}

} // verus!
