//! The steps of an analysis that decide its outcome.

use vstd::prelude::*;
use crate::float64::{Float64, ONE, ZERO};
use crate::thumbnail::chroma;

verus! {

/// The pattern of 0.5.
pub const HALF: u64 = 0x3FE0_0000_0000_0000;

/// The pattern of 30.0.
pub const DEFAULT_TARGET: u64 = 0x403E_0000_0000_0000;

/// The pattern of 15.0.
pub const DEFAULT_MIN: u64 = 0x402E_0000_0000_0000;

/// The pattern of 45.0.
pub const DEFAULT_MAX: u64 = 0x4046_8000_0000_0000;

/// The part of a recording that was selected.
#[derive(Clone, Copy, PartialEq, Eq, Structural, Debug)]
pub struct ThumbnailResult {
    /// The start in seconds.
    pub start_time: Float64,
    /// The duration in seconds.
    pub duration: Float64,
    /// The confidence, from 0 to 1.
    pub confidence: Float64,
}

/// What part of a recording to select.
#[derive(Clone, Copy, PartialEq, Eq, Structural, Debug)]
pub struct ThumbnailConfig {
    /// The duration to aim at, in seconds.
    pub target_duration: Float64,
    /// The least duration in seconds.
    pub min_duration: Float64,
    /// The greatest duration in seconds.
    pub max_duration: Float64,
}

impl ThumbnailConfig {
    /// The configuration where nothing is asked for.
    pub open spec fn usual() -> ThumbnailConfig {
        ThumbnailConfig {
            target_duration: Float64 { bits: DEFAULT_TARGET },
            min_duration: Float64 { bits: DEFAULT_MIN },
            max_duration: Float64 { bits: DEFAULT_MAX },
        }
    }
}

impl Default for ThumbnailConfig {
    /// Thirty seconds, from fifteen to forty-five.
    fn default() -> (c: ThumbnailConfig)
        ensures
            c == ThumbnailConfig::usual(),
    {
        ThumbnailConfig {
            target_duration: Float64 { bits: DEFAULT_TARGET },
            min_duration: Float64 { bits: DEFAULT_MIN },
            max_duration: Float64 { bits: DEFAULT_MAX },
        }
    }
}

/// The result for a recording that is too short to choose from: all of it.
pub open spec fn whole_recording(total: Float64) -> ThumbnailResult {
    ThumbnailResult {
        start_time: Float64 { bits: ZERO },
        duration: total,
        confidence: Float64 { bits: ONE },
    }
}

/// The result for a recording with too few frames to compare: its start.
pub open spec fn opening(total: Float64, config: ThumbnailConfig) -> ThumbnailResult {
    ThumbnailResult {
        start_time: Float64 { bits: ZERO },
        duration: total.lesser(config.target_duration),
        confidence: Float64 { bits: HALF },
    }
}

/// The result that needs no search by frames: the whole of a recording that is no longer
/// than the least duration.
pub fn short_track(total: Float64, config: &ThumbnailConfig) -> (r: Option<ThumbnailResult>)
    ensures
        r == if config.min_duration.at_least(total) {
            Some(whole_recording(total))
        } else {
            None
        },
{
    if config.min_duration.greater_or_equal(total) {
        Some(
            ThumbnailResult {
                start_time: Float64 { bits: ZERO },
                duration: total,
                confidence: Float64 { bits: ONE },
            },
        )
    } else {
        None
    }
}

/// The result that needs no search by similarity: the start of a recording that has fewer
/// than four frames.
pub fn few_frames(total: Float64, config: &ThumbnailConfig, num_frames: usize) -> (r: Option<
    ThumbnailResult,
>)
    ensures
        r == if num_frames < 4 {
            Some(opening(total, *config))
        } else {
            None
        },
{
    if num_frames < 4 {
        Some(
            ThumbnailResult {
                start_time: Float64 { bits: ZERO },
                duration: total.min(config.target_duration),
                confidence: Float64 { bits: HALF },
            },
        )
    } else {
        None
    }
}

/// The durations that are asked for, capped so that less than the whole recording is
/// selected. `cap` is three quarters of its duration.
pub open spec fn capped(config: ThumbnailConfig, cap: Float64) -> ThumbnailConfig {
    let max = config.max_duration.lesser(cap);
    ThumbnailConfig {
        target_duration: config.target_duration.lesser(max),
        min_duration: config.min_duration.lesser(max),
        max_duration: max,
    }
}

/// Caps the durations that are asked for.
pub fn effective_durations(config: &ThumbnailConfig, cap: Float64) -> (c: ThumbnailConfig)
    ensures
        c == capped(*config, cap),
{
    let max: Float64 = config.max_duration.min(cap);
    ThumbnailConfig {
        target_duration: config.target_duration.min(max),
        min_duration: config.min_duration.min(max),
        max_duration: max,
    }
}

/// A search for the part that is repeated most.
#[derive(Clone, Copy, PartialEq, Eq, Structural, Debug)]
pub struct SearchPlan {
    /// The durations to choose between, in seconds.
    pub durations: ThumbnailConfig,
    /// The number of samples from one frame to the next.
    pub hop_size: usize,
    /// The number of frames to compare.
    pub num_frames: usize,
}

/// How a recording is analysed.
#[derive(Clone, Copy, PartialEq, Eq, Structural, Debug)]
pub enum AnalysisPlan {
    /// Not at all: the result is clear.
    Done(ThumbnailResult),
    /// By a search.
    Search(SearchPlan),
}

/// The number of samples from one frame to the next: half a second. A rate below zero wraps
/// around the machine's word.
pub open spec fn hop_of(sample_rate: int) -> nat {
    if sample_rate >= 0 {
        (sample_rate / 2) as nat
    } else {
        ((usize::MAX + 1 + sample_rate) / 2) as nat
    }
}

/// Whether a plan is the one for a recording of `samples` samples that lasts `total`
/// seconds: all of it where it is short, its start where it has few frames, and a search
/// where there is something to choose from.
pub open spec fn plans(
    p: AnalysisPlan,
    samples: nat,
    sample_rate: int,
    total: Float64,
    cap: Float64,
    config: ThumbnailConfig,
) -> bool {
    let frames = chroma::frames_of(samples, hop_of(sample_rate));
    if config.min_duration.at_least(total) {
        p == AnalysisPlan::Done(whole_recording(total))
    } else if frames < 4 {
        p == AnalysisPlan::Done(opening(total, config))
    } else {
        &&& p is Search
        &&& p->Search_0.durations == capped(config, cap)
        &&& p->Search_0.hop_size == hop_of(sample_rate)
        &&& p->Search_0.num_frames == frames
    }
}

/// Plans the analysis of a recording. `total` is its duration in seconds, and `cap` is
/// three quarters of it. Frames have to be at least one sample apart.
pub fn analyze(
    samples: usize,
    sample_rate: i32,
    total: Float64,
    cap: Float64,
    config: &ThumbnailConfig,
) -> (p: AnalysisPlan)
    requires
        !config.min_duration.at_least(total) && samples >= chroma::FFT_SIZE ==> hop_of(
            sample_rate as int,
        ) >= 1,
    ensures
        plans(p, samples as nat, sample_rate as int, total, cap, *config),
{
    if let Some(result) = short_track(total, config) {
        return AnalysisPlan::Done(result);
    }
    let (hop, frames): (usize, usize) = if samples < chroma::FFT_SIZE {
        (0, 0)
    } else {
        let hop: usize = hop_size(sample_rate);
        (hop, chroma::num_frames(samples, hop))
    };
    match few_frames(total, config, frames) {
        Some(result) => AnalysisPlan::Done(result),
        None => AnalysisPlan::Search(
            SearchPlan {
                durations: effective_durations(config, cap),
                hop_size: hop,
                num_frames: frames,
            },
        ),
    }
}

/// Bounds of a length, in frames.
#[derive(Clone, Copy, PartialEq, Eq, Structural, Debug)]
pub struct FrameBounds {
    pub min: usize,
    pub max: usize,
    pub target: usize,
}

/// The larger of two numbers.
pub open spec fn larger(a: int, b: int) -> int {
    if a < b {
        b
    } else {
        a
    }
}

/// The smaller of two numbers.
pub open spec fn smaller(a: int, b: int) -> int {
    if b < a {
        b
    } else {
        a
    }
}

/// Brings the bounds of a length within a recording: at least one frame, at most all of
/// them, and the target between the two.
pub fn clamp_frames(wanted: FrameBounds, num_frames: usize) -> (b: FrameBounds)
    requires
        num_frames >= 1,
    ensures
        b.min == smaller(larger(wanted.min as int, 1), num_frames as int),
        b.max == smaller(larger(wanted.max as int, b.min as int), num_frames as int),
        b.target == smaller(larger(wanted.target as int, b.min as int), b.max as int),
        1 <= b.min <= b.target <= b.max <= num_frames,
{
    let at_least_one: usize = if wanted.min < 1 {
        1
    } else {
        wanted.min
    };
    let min: usize = if num_frames < at_least_one {
        num_frames
    } else {
        at_least_one
    };
    let at_least_min: usize = if wanted.max < min {
        min
    } else {
        wanted.max
    };
    let max: usize = if num_frames < at_least_min {
        num_frames
    } else {
        at_least_min
    };
    let target: usize = if wanted.target < min {
        min
    } else if wanted.target > max {
        max
    } else {
        wanted.target
    };
    FrameBounds { min, max, target }
}

/// Finds the number of samples from one frame to the next.
pub fn hop_size(sample_rate: i32) -> (n: usize)
    ensures
        n == hop_of(sample_rate as int),
{
    if sample_rate >= 0 {
        sample_rate as usize / 2
    } else {
        let below: usize = (-1 - (sample_rate as i64)) as usize;
        (usize::MAX - below) / 2
    }
}

/// The result of a search, kept within the recording. `start_time` and `duration` are
/// those of the segment, and `rest` is what the recording has from its start on.
pub fn within_track(
    start_time: Float64,
    duration: Float64,
    rest: Float64,
    confidence: Float64,
) -> (r: ThumbnailResult)
    ensures
        r.start_time == start_time,
        r.duration == duration.lesser(rest),
        r.confidence == confidence,
{
    ThumbnailResult { start_time, duration: duration.min(rest), confidence }
}

/// The capped durations are at most the greatest one, and that is at most what was asked
/// for and at most three quarters of the recording.
pub proof fn law_capped_durations_are_ordered(config: ThumbnailConfig, cap: Float64)
    requires
        !config.target_duration.is_nan(),
        !config.min_duration.is_nan(),
        !config.max_duration.is_nan(),
        !cap.is_nan(),
    ensures
        ({
            let c = capped(config, cap);
            &&& c.max_duration.at_least(c.target_duration)
            &&& c.max_duration.at_least(c.min_duration)
            &&& config.max_duration.at_least(c.max_duration)
            &&& cap.at_least(c.max_duration)
        }),
{
}

/// A search has at least four frames to choose from, and they lie within the samples.
pub proof fn law_search_has_frames(
    p: AnalysisPlan,
    samples: nat,
    sample_rate: int,
    total: Float64,
    cap: Float64,
    config: ThumbnailConfig,
)
    requires
        plans(p, samples, sample_rate, total, cap, config),
        hop_of(sample_rate) >= 1,
        p is Search,
    ensures
        p->Search_0.num_frames >= 4,
        p->Search_0.hop_size >= 1,
        (p->Search_0.num_frames - 1) * p->Search_0.hop_size + chroma::FFT_SIZE <= samples,
{
    let s = p->Search_0;
    chroma::law_frames_lie_within_samples(
        (s.num_frames - 1) as nat,
        samples,
        s.hop_size as nat,
    );
}

/// A duration kept within the recording is no longer than what the recording has.
pub proof fn law_selection_stays_within_track(duration: Float64, rest: Float64)
    requires
        !duration.is_nan(),
        !rest.is_nan(),
    ensures
        rest.at_least(duration.lesser(rest)),
        duration.at_least(duration.lesser(rest)),
{
}

/// Where nothing is asked for, thirty seconds are aimed at, and no less than fifteen and no
/// more than forty-five are taken.
pub proof fn law_usual_durations()
    ensures
        ThumbnailConfig::usual().target_duration == (Float64 { bits: 0x403E_0000_0000_0000 }),
        ThumbnailConfig::usual().min_duration == (Float64 { bits: 0x402E_0000_0000_0000 }),
        ThumbnailConfig::usual().max_duration == (Float64 { bits: 0x4046_8000_0000_0000 }),
{
}

/// A recording that is no longer than the least duration is taken whole, from its first second
/// and for certain; a longer one that has fewer than four frames is taken from its first second
/// for the duration aimed at, or whole where it is no longer, and with half the confidence; any
/// other is searched, between the capped durations.
pub proof fn law_plan_follows_the_length(
    p: AnalysisPlan,
    samples: nat,
    sample_rate: int,
    total: Float64,
    cap: Float64,
    config: ThumbnailConfig,
)
    requires
        plans(p, samples, sample_rate, total, cap, config),
    ensures
        ({
            let short = config.min_duration.at_least(total);
            let few = chroma::frames_of(samples, hop_of(sample_rate)) < 4;
            &&& p is Done <==> short || few
            &&& p is Done ==> p->Done_0.start_time == (Float64 { bits: 0 })
            &&& short ==> p->Done_0.duration == total && p->Done_0.confidence == (Float64 {
                bits: 0x3FF0_0000_0000_0000,
            })
            &&& !short && few ==> p->Done_0.confidence == (Float64 {
                bits: 0x3FE0_0000_0000_0000,
            })
            &&& !short && few && config.target_duration.at_least(total) ==> p->Done_0.duration
                == total
            &&& !short && few && total.above(config.target_duration) ==> p->Done_0.duration
                == config.target_duration
            &&& samples < 4096 ==> p is Done
            &&& p is Search ==> p->Search_0.num_frames == chroma::frames_of(
                samples,
                hop_of(sample_rate),
            )
            &&& p is Search ==> p->Search_0.hop_size == hop_of(sample_rate)
            &&& p is Search ==> p->Search_0.durations == capped(config, cap)
        }),
{
}

/// A duration that is asked for stays where it is not above the cap, and is the cap where it
/// is: the greatest under three quarters of the recording, the others under the greatest.
pub proof fn law_durations_are_kept_under_the_cap(config: ThumbnailConfig, cap: Float64)
    requires
        !config.target_duration.is_nan(),
        !config.min_duration.is_nan(),
        !config.max_duration.is_nan(),
        !cap.is_nan(),
    ensures
        ({
            let c = capped(config, cap);
            &&& cap.at_least(config.max_duration) ==> c.max_duration == config.max_duration
            &&& config.max_duration.above(cap) ==> c.max_duration == cap
            &&& c.max_duration.at_least(config.target_duration) ==> c.target_duration
                == config.target_duration
            &&& config.target_duration.above(c.max_duration) ==> c.target_duration
                == c.max_duration
            &&& c.max_duration.at_least(config.min_duration) ==> c.min_duration
                == config.min_duration
            &&& config.min_duration.above(c.max_duration) ==> c.min_duration == c.max_duration
        }),
{
}

/// Frames are half a second apart.
pub proof fn law_two_hops_are_a_second(sample_rate: int)
    requires
        i32::MIN <= sample_rate <= i32::MAX,
    ensures
        sample_rate >= 0 ==> 2 * hop_of(sample_rate) <= sample_rate <= 2 * hop_of(sample_rate) + 1,
        sample_rate < 0 ==> 2 * hop_of(sample_rate) <= usize::MAX + 1 + sample_rate <= 2 * hop_of(
            sample_rate,
        ) + 1,
{
}

/// The larger and the smaller of two numbers are the two numbers, in their order.
pub proof fn law_larger_and_smaller(a: int, b: int)
    ensures
        larger(a, b) >= a && larger(a, b) >= b,
        smaller(a, b) <= a && smaller(a, b) <= b,
        larger(a, b) + smaller(a, b) == a + b,
        larger(a, b) == a || larger(a, b) == b,
{
}

} // verus!
