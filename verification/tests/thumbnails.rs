use rustfft::num_complex::Complex;
use rustfft::FftPlanner;
use streaming_engine::float64::Float64;
use streaming_engine::thumbnail::analysis;
use streaming_engine::thumbnail::analysis::{
    clamp_frames, effective_durations, few_frames, hop_size, short_track, within_track,
    AnalysisPlan, FrameBounds, SearchPlan,
};
use streaming_engine::thumbnail::chroma::{
    build_bin_chroma_map, chroma_of_note, frame_start, is_useful_bin, num_frames, FFT_SIZE,
    NUM_CHROMA,
};
use streaming_engine::thumbnail::fitness::{
    covered_frames, find_best_segment, num_positions, segment_candidates, segment_positions,
    stripe_cell, stripe_offsets, Segment,
};
use streaming_engine::thumbnail::ssm::cell_index;
use streaming_engine::thumbnail::{ThumbnailConfig, ThumbnailResult};

fn f(x: f64) -> Float64 {
    Float64 { bits: x.to_bits() }
}

fn g(x: Float64) -> f64 {
    f64::from_bits(x.bits)
}

fn bin_chroma_map(fft_size: usize, sample_rate: i32) -> Vec<Option<usize>> {
    let notes: Vec<i32> = (0..fft_size / 2)
        .map(|bin| {
            let freq = bin as f64 * sample_rate as f64 / fft_size as f64;
            (69.0 + 12.0 * (freq / 440.0).log2()).round() as i32
        })
        .collect();
    build_bin_chroma_map(fft_size, sample_rate, &notes)
}

fn extract_chroma(samples: &[f32], sample_rate: i32, hop: usize) -> Vec<f32> {
    let fft = FftPlanner::<f32>::new().plan_fft_forward(FFT_SIZE);
    let frames = num_frames(samples.len(), hop);
    let map = bin_chroma_map(FFT_SIZE, sample_rate);
    let window: Vec<f32> = (0..FFT_SIZE)
        .map(|i| (std::f32::consts::PI * i as f32 / FFT_SIZE as f32).sin().powi(2))
        .collect();
    let mut features = Vec::with_capacity(frames * NUM_CHROMA);
    for frame in 0..frames {
        let start = frame_start(frame, samples.len(), hop);
        let mut buffer: Vec<Complex<f32>> =
            (0..FFT_SIZE).map(|i| Complex::new(samples[start + i] * window[i], 0.0)).collect();
        fft.process(&mut buffer);
        let mut chroma = [0.0f32; 12];
        for bin in 1..FFT_SIZE / 2 {
            if let Some(c) = map[bin] {
                let magnitude = buffer[bin].norm();
                chroma[c] += magnitude * magnitude;
            }
        }
        let max = chroma.iter().cloned().fold(0.0f32, f32::max);
        if max > 1e-10 {
            for c in &mut chroma {
                *c /= max;
            }
        }
        features.extend_from_slice(&chroma);
    }
    features
}

fn build_ssm(chroma: &[f32], frames: usize) -> Vec<f32> {
    let mut ssm = vec![0.0f32; frames * frames];
    let frame = |i: usize| &chroma[i * 12..(i + 1) * 12];
    let norms: Vec<f32> = (0..frames)
        .map(|i| frame(i).iter().map(|x| x * x).sum::<f32>().sqrt().max(1e-10))
        .collect();
    for i in 0..frames {
        ssm[cell_index(frames, i, i)] = 1.0;
        for j in (i + 1)..frames {
            let dot: f32 = frame(i).iter().zip(frame(j)).map(|(a, b)| a * b).sum();
            let sim = dot / (norms[i] * norms[j]);
            ssm[cell_index(frames, i, j)] = sim;
            ssm[cell_index(frames, j, i)] = sim;
        }
    }
    ssm
}

fn fitness(ssm: &[f32], frames: usize, s: &Segment, target: usize) -> f64 {
    let at = segment_positions(frames, s.length);
    let offsets = stripe_offsets(s.length);
    let averages: Vec<f32> = at
        .iter()
        .map(|pos| {
            let sum: f32 = offsets
                .iter()
                .map(|k| ssm[stripe_cell(frames, s.start, *pos, *k, s.length)])
                .sum();
            if offsets.is_empty() { 0.0 } else { sum / offsets.len() as f32 }
        })
        .collect();
    let held: Vec<Float64> = averages.iter().map(|a| f(*a as f64)).collect();
    let (hits, covered) = covered_frames(s.start, s.length, &at, &held);
    let mut total = 0.0f64;
    for i in 0..at.len() {
        if at[i] == s.start {
            total += 1.0;
        } else if hits[i] {
            total += averages[i] as f64;
        }
    }
    let coverage = (covered as f64 / frames as f64).min(1.0);
    let repetition = total / num_positions(frames, s.length) as f64;
    let bonus = 1.0 - (s.length as f64 / target as f64 - 1.0).abs() * 0.2;
    coverage * repetition * bonus.max(0.5)
}

fn best(ssm: &[f32], frames: usize, min: usize, max: usize, target: usize) -> (usize, usize, f64) {
    let scores: Vec<Float64> = segment_candidates(frames, min, max)
        .iter()
        .map(|s| f(fitness(ssm, frames, s, target)))
        .collect();
    let (start, length, confidence) = find_best_segment(frames, min, max, target, &scores);
    (start, length, g(confidence))
}

fn analyze(samples: &[f32], sample_rate: i32, config: &ThumbnailConfig) -> ThumbnailResult {
    let total = samples.len() as f64 / sample_rate as f64;
    let plan = analysis::analyze(samples.len(), sample_rate, f(total), f(total * 0.75), config);
    let search = match plan {
        AnalysisPlan::Done(r) => return r,
        AnalysisPlan::Search(search) => search,
    };
    let (e, hop) = (search.durations, search.hop_size);
    let chroma = extract_chroma(samples, sample_rate, hop);
    let frames = chroma.len() / 12;
    assert_eq!(frames, search.num_frames);
    let ssm = build_ssm(&chroma, frames);
    let frame = hop as f64 / sample_rate as f64;
    let wanted = FrameBounds {
        min: (g(e.min_duration) / frame).ceil() as usize,
        max: (g(e.max_duration) / frame).floor() as usize,
        target: (g(e.target_duration) / frame).round() as usize,
    };
    let b = clamp_frames(wanted, frames);
    let (start, length, confidence) = best(&ssm, frames, b.min, b.max, b.target);
    let start_time = start as f64 * frame;
    let duration = length as f64 * frame;
    within_track(f(start_time), f(duration), f(total - start_time), f(confidence))
}

#[test]
fn test_chroma_extraction_basic() {
    let sample_rate = 44100;
    let samples: Vec<f32> = (0..sample_rate as usize * 5)
        .map(|i| (2.0 * std::f32::consts::PI * 440.0 * i as f32 / sample_rate as f32).sin())
        .collect();
    let chroma = extract_chroma(&samples, sample_rate, sample_rate as usize / 2);
    assert!(!chroma.is_empty());
    assert_eq!(chroma.len() % 12, 0);
    for frame in chroma.chunks(12) {
        let max_bin = (0..12).max_by(|a, b| frame[*a].partial_cmp(&frame[*b]).unwrap()).unwrap();
        assert_eq!(max_bin, 9, "Expected A (bin 9), got bin {}", max_bin);
    }
}

#[test]
fn test_empty_input() {
    let chroma = extract_chroma(&[], 44100, 22050);
    assert!(chroma.is_empty());
    assert_eq!(num_frames(0, 22050), 0);
}

#[test]
fn test_uniform_ssm() {
    let n = 60;
    let ssm = vec![1.0f32; n * n];
    let (start, len, confidence) = best(&ssm, n, 10, 30, 20);
    assert!(start + len <= n);
    assert!(len >= 10);
    assert!(len <= 30);
    assert!(confidence > 0.0);
}

#[test]
fn test_no_repetition() {
    let n = 60;
    let mut ssm = vec![0.0f32; n * n];
    for i in 0..n {
        ssm[i * n + i] = 1.0;
    }
    let (start, len, confidence) = best(&ssm, n, 10, 30, 20);
    assert!(start + len <= n);
    assert!(confidence < 0.8);
}

#[test]
fn test_short_track_returns_whole() {
    let sample_rate = 44100;
    let samples = vec![0.0f32; sample_rate as usize * 10];
    let config = ThumbnailConfig { min_duration: f(15.0), ..Default::default() };
    let result = analyze(&samples, sample_rate, &config);
    assert_eq!(g(result.start_time), 0.0);
    assert!((g(result.duration) - 10.0).abs() < 0.1);
    assert_eq!(g(result.confidence), 1.0);
}

#[test]
fn test_analyze_returns_valid_bounds() {
    let sample_rate = 44100;
    let num_samples = sample_rate as usize * 180;
    let samples: Vec<f32> = (0..num_samples)
        .map(|i| {
            let t = i as f32 / sample_rate as f32;
            let phase = (t % 30.0) / 30.0;
            (phase * 2.0 * std::f32::consts::PI * 440.0).sin()
        })
        .collect();
    let config = ThumbnailConfig::default();
    let result = analyze(&samples, sample_rate, &config);
    assert!(g(result.start_time) >= 0.0);
    assert!(g(result.duration) >= g(config.min_duration));
    assert!(g(result.duration) <= g(config.max_duration));
    assert!(g(result.start_time) + g(result.duration) <= 180.5);
    assert!(g(result.confidence) >= 0.0 && g(result.confidence) <= 1.0);
}

#[test]
fn test_ssm_diagonal_is_one() {
    let chroma = vec![1.0f32; 3 * 12];
    let ssm = build_ssm(&chroma, 3);
    for i in 0..3 {
        assert!((ssm[i * 3 + i] - 1.0).abs() < 1e-6);
    }
}

#[test]
fn test_ssm_identical_frames() {
    let chroma = vec![0.5f32; 4 * 12];
    let ssm = build_ssm(&chroma, 4);
    for val in &ssm {
        assert!((val - 1.0).abs() < 1e-5, "Expected ~1.0, got {}", val);
    }
}

#[test]
fn test_ssm_orthogonal_frames() {
    let mut chroma = vec![0.0f32; 2 * 12];
    chroma[0] = 1.0;
    chroma[12 + 6] = 1.0;
    let ssm = build_ssm(&chroma, 2);
    assert!((ssm[0] - 1.0).abs() < 1e-6);
    assert!((ssm[3] - 1.0).abs() < 1e-6);
    assert!(ssm[1].abs() < 1e-6);
    assert!(ssm[2].abs() < 1e-6);
}

#[test]
fn default_durations() {
    let c = ThumbnailConfig::default();
    assert_eq!(g(c.target_duration), 30.0);
    assert_eq!(g(c.min_duration), 15.0);
    assert_eq!(g(c.max_duration), 45.0);
}

#[test]
fn few_frames_give_the_opening() {
    let c = ThumbnailConfig::default();
    let r = few_frames(f(20.0), &c, 3).unwrap();
    assert_eq!((g(r.start_time), g(r.duration), g(r.confidence)), (0.0, 20.0, 0.5));
    let r = few_frames(f(90.0), &c, 0).unwrap();
    assert_eq!(g(r.duration), 30.0);
    assert!(few_frames(f(90.0), &c, 4).is_none());
}

#[test]
fn a_track_of_the_least_duration_is_short() {
    let c = ThumbnailConfig::default();
    assert!(short_track(f(15.0), &c).is_some());
    assert!(short_track(f(15.1), &c).is_none());
    assert!(short_track(f(f64::NAN), &c).is_none());
}

#[test]
fn a_recording_is_searched_where_there_is_something_to_choose() {
    let c = ThumbnailConfig::default();
    let whole = analysis::analyze(441000, 44100, f(10.0), f(7.5), &c);
    assert_eq!(whole, AnalysisPlan::Done(short_track(f(10.0), &c).unwrap()));
    let opening = analysis::analyze(4095, 0, f(20.0), f(15.0), &c);
    assert_eq!(opening, AnalysisPlan::Done(few_frames(f(20.0), &c, 0).unwrap()));
    let opening = analysis::analyze(4096 + 3 * 22050 - 1, 44100, f(20.0), f(15.0), &c);
    assert_eq!(opening, AnalysisPlan::Done(few_frames(f(20.0), &c, 3).unwrap()));
    let opening = analysis::analyze(1 << 20, -44100, f(20.0), f(15.0), &c);
    assert_eq!(opening, AnalysisPlan::Done(few_frames(f(20.0), &c, 1).unwrap()));
    let search = analysis::analyze(4096 + 3 * 22050, 44100, f(20.0), f(15.0), &c);
    let plan = SearchPlan {
        durations: effective_durations(&c, f(15.0)),
        hop_size: hop_size(44100),
        num_frames: 4,
    };
    assert_eq!(search, AnalysisPlan::Search(plan));
}

#[test]
fn durations_are_capped() {
    let e = effective_durations(&ThumbnailConfig::default(), f(18.0));
    assert_eq!(
        (g(e.min_duration), g(e.target_duration), g(e.max_duration)),
        (15.0, 18.0, 18.0)
    );
    let e = effective_durations(&ThumbnailConfig::default(), f(300.0));
    assert_eq!(
        (g(e.min_duration), g(e.target_duration), g(e.max_duration)),
        (15.0, 30.0, 45.0)
    );
}

#[test]
fn frames_are_clamped() {
    let b = clamp_frames(FrameBounds { min: 0, max: 0, target: 0 }, 10);
    assert_eq!((b.min, b.max, b.target), (1, 1, 1));
    let b = clamp_frames(FrameBounds { min: 30, max: 90, target: 60 }, 40);
    assert_eq!((b.min, b.max, b.target), (30, 40, 40));
    let b = clamp_frames(FrameBounds { min: 30, max: 20, target: 1 }, 100);
    assert_eq!((b.min, b.max, b.target), (30, 30, 30));
    assert_eq!(hop_size(44100), 22050);
    for rate in [0, 1, 2, 44101, i32::MAX, -1, -2, -44100, i32::MIN] {
        assert_eq!(hop_size(rate), rate as usize / 2);
    }
}

#[test]
fn selections_stay_within_the_track() {
    let r = within_track(f(10.0), f(30.0), f(5.0), f(0.7));
    assert_eq!((g(r.start_time), g(r.duration), g(r.confidence)), (10.0, 5.0, 0.7));
    let r = within_track(f(10.0), f(3.0), f(5.0), f(0.7));
    assert_eq!(g(r.duration), 3.0);
}

#[test]
fn frames_cover_whole_windows() {
    assert_eq!(num_frames(4095, 100), 0);
    assert_eq!(num_frames(4096, 100), 1);
    assert_eq!(num_frames(4195, 100), 1);
    assert_eq!(num_frames(4196, 100), 2);
    assert_eq!(frame_start(1, 4196, 100), 100);
}

#[test]
fn bins_count_from_32_to_8000_hertz() {
    assert!(!is_useful_bin(FFT_SIZE, 0, 44100));
    assert!(!is_useful_bin(FFT_SIZE, 2, 44100));
    assert!(is_useful_bin(FFT_SIZE, 3, 44100));
    assert!(is_useful_bin(FFT_SIZE, 743, 44100));
    assert!(!is_useful_bin(FFT_SIZE, 744, 44100));
    assert!(!is_useful_bin(FFT_SIZE, 100, -44100));
    assert!(is_useful_bin(FFT_SIZE, 2047, 16000));
    let map = bin_chroma_map(FFT_SIZE, 44100);
    assert_eq!(map.len(), 2048);
    assert_eq!(map[0], None);
    assert_eq!(map[41], Some(9));
}

#[test]
fn notes_have_pitch_classes() {
    assert_eq!(chroma_of_note(69), 9);
    assert_eq!(chroma_of_note(60), 0);
    assert_eq!(chroma_of_note(-13), 1);
    assert_eq!(chroma_of_note(i32::MIN), 8);
}

#[test]
fn candidates_go_by_length_and_start() {
    let all: Vec<(usize, usize)> =
        segment_candidates(5, 3, 4).iter().map(|s| (s.start, s.length)).collect();
    assert_eq!(all, vec![(0, 3), (1, 3), (2, 3), (0, 4), (1, 4)]);
    assert!(segment_candidates(5, 6, 9).is_empty());
    let strided = segment_candidates(400, 100, 160);
    assert_eq!((strided[1].start, strided[1].length), (2, 100));
    assert_eq!(strided.last().map(|s| s.length), Some(160));
}

#[test]
fn the_first_of_the_highest_scores_wins() {
    let scores: Vec<Float64> = [0.2, 0.9, f64::NAN, 0.9, 0.1].iter().map(|x| f(*x)).collect();
    let (start, length, confidence) = find_best_segment(5, 3, 4, 4, &scores);
    assert_eq!((start, length, g(confidence)), (1, 3, 0.9));
    let scores: Vec<Float64> = [1.5, -1.0, 0.0, 0.0, 0.0].iter().map(|x| f(*x)).collect();
    assert_eq!(g(find_best_segment(5, 3, 4, 4, &scores).2), 1.0);
    let scores: Vec<Float64> = [-3.0, -1.0, -2.0, -1.5, -1.0].iter().map(|x| f(*x)).collect();
    let (start, length, confidence) = find_best_segment(5, 3, 4, 4, &scores);
    assert_eq!((start, length, g(confidence)), (1, 3, 0.1));
    let (start, length, confidence) = find_best_segment(5, 6, 9, 7, &vec![]);
    assert_eq!((start, length, g(confidence)), (0, 5, 0.1));
}

#[test]
fn stripes_are_sampled() {
    assert_eq!(segment_positions(5, 3), vec![0, 1, 2]);
    assert_eq!(segment_positions(250, 245), vec![0, 2, 4]);
    assert!(segment_positions(5, 6).is_empty());
    assert_eq!(num_positions(250, 245), 3);
    assert_eq!(num_positions(5, 6), 1);
    assert_eq!(stripe_offsets(3), vec![0, 1, 2]);
    assert_eq!(stripe_offsets(40).len(), 20);
    assert_eq!(stripe_cell(10, 2, 5, 1, 3), 36);
    assert_eq!(cell_index(10, 3, 6), 36);
}

#[test]
fn similar_positions_cover_frames() {
    let averages: Vec<Float64> =
        [0.0f32, 0.6, 0.59, 1.0].iter().map(|x| f(*x as f64)).collect();
    let (hits, covered) = covered_frames(0, 7, &vec![0, 1, 2, 3], &averages);
    assert_eq!(hits, vec![true, true, false, true]);
    assert_eq!(covered, 21);
}

#[test]
fn candidates_rise_by_length_and_start() {
    let all = segment_candidates(450, 20, 90);
    assert!(all.windows(2).all(|w| {
        (w[0].length, w[0].start) < (w[1].length, w[1].start)
    }));
    assert!(all.iter().all(|s| (s.length - 20) % 3 == 0 && s.start % 2 == 0));
    let ties = vec![f(0.5); all.len()];
    assert_eq!(find_best_segment(450, 20, 90, 60, &ties), (0, 20, f(0.5)));
}

#[test]
fn bins_of_small_transforms_have_pitch_classes() {
    assert_eq!(bin_chroma_map(8, 3520), vec![None, Some(9), Some(9), Some(4)]);
    assert_eq!(bin_chroma_map(8, 128), vec![None, None, Some(0), Some(7)]);
    assert_eq!(bin_chroma_map(4, 32000), vec![None, Some(11)]);
    assert!(bin_chroma_map(0, 44100).is_empty());
    assert!(bin_chroma_map(1, 44100).is_empty());
}
