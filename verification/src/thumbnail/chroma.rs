//! The frames of a chromagram: which samples each frame covers, and which pitch class
//! each frequency bin counts for.

use vstd::prelude::*;

verus! {

/// The number of samples of a frame.
pub const FFT_SIZE: usize = 4096;

/// The number of pitch classes.
pub const NUM_CHROMA: usize = 12;

/// The number of whole frames, one each `hop_size` samples.
pub open spec fn frames_of(samples: nat, hop_size: nat) -> nat {
    if samples >= FFT_SIZE {
        (samples - FFT_SIZE) as nat / hop_size + 1
    } else {
        0
    }
}

/// The number of whole frames, one each `hop_size` samples.
pub fn num_frames(samples: usize, hop_size: usize) -> (n: usize)
    requires
        hop_size > 0,
    ensures
        n == frames_of(samples as nat, hop_size as nat),
{
    if samples >= FFT_SIZE {
        let gap: usize = samples - FFT_SIZE;
        proof {
            assert(gap / hop_size <= gap) by (nonlinear_arith)
                requires
                    hop_size > 0,
            ;
        }
        gap / hop_size + 1
    } else {
        0
    }
}

/// The first sample of a frame.
pub fn frame_start(frame: usize, samples: usize, hop_size: usize) -> (start: usize)
    requires
        hop_size > 0,
        frame < frames_of(samples as nat, hop_size as nat),
    ensures
        start == frame * hop_size,
        start + FFT_SIZE <= samples,
{
    proof {
        law_frames_lie_within_samples(frame as nat, samples as nat, hop_size as nat);
        assert(frame * hop_size >= 0) by (nonlinear_arith);
    }
    frame * hop_size
}

/// Every frame lies within the samples, so none is padded; one more frame would not.
pub proof fn law_frames_lie_within_samples(frame: nat, samples: nat, hop_size: nat)
    requires
        hop_size > 0,
    ensures
        frame < frames_of(samples, hop_size) <==> frame * hop_size + FFT_SIZE <= samples,
{
    if samples >= FFT_SIZE {
        let gap = (samples - FFT_SIZE) as nat;
        let q = gap / hop_size;
        assert(q * hop_size <= gap < q * hop_size + hop_size) by (nonlinear_arith)
            requires
                hop_size > 0,
                q == gap / hop_size,
        ;
        if frame <= q {
            assert(frame * hop_size <= q * hop_size) by (nonlinear_arith)
                requires
                    frame <= q,
            ;
        } else {
            assert(frame * hop_size >= q * hop_size + hop_size) by (nonlinear_arith)
                requires
                    frame >= q + 1,
            ;
        }
    } else {
        assert(frame * hop_size >= 0) by (nonlinear_arith);
    }
}

/// Whether the frequency of a bin counts: from 32 to 8000 Hz. The frequency is
/// `bin * sample_rate / fft_size`.
pub open spec fn useful(fft_size: nat, bin: nat, sample_rate: int) -> bool {
    32 * fft_size <= bin * sample_rate <= 8000 * fft_size
}

/// Whether the frequency of a bin counts.
pub fn is_useful_bin(fft_size: usize, bin: usize, sample_rate: i32) -> (b: bool)
    ensures
        b == useful(fft_size as nat, bin as nat, sample_rate as int),
{
    proof {
        assert(-0x8000_0000 * 0x1_0000_0000_0000_0000 <= bin * sample_rate <= 0x8000_0000
            * 0x1_0000_0000_0000_0000) by (nonlinear_arith)
            requires
                0 <= bin <= 0x1_0000_0000_0000_0000,
                -0x8000_0000 <= sample_rate <= 0x8000_0000,
        ;
    }
    let product: i128 = bin as i128 * sample_rate as i128;
    let size: i128 = fft_size as i128;
    product >= 32 * size && product <= 8000 * size
}

/// The pitch class of a note, by its MIDI number.
pub open spec fn pitch_class(note: int) -> int {
    if note >= 0 {
        note % 12
    } else {
        (-note) % 12
    }
}

/// The pitch class of a note, by its MIDI number.
pub fn chroma_of_note(note: i32) -> (c: usize)
    ensures
        c == pitch_class(note as int),
        c < NUM_CHROMA,
{
    let size: i64 = if note >= 0 {
        note as i64
    } else {
        -(note as i64)
    };
    (size % 12) as usize
}

/// The pitch class that each bin below half the size of the transform counts for: none for
/// the first one and for those whose frequency does not count. `notes` holds the MIDI number
/// of the note that is nearest to the frequency of each bin.
pub fn build_bin_chroma_map(fft_size: usize, sample_rate: i32, notes: &Vec<i32>) -> (map: Vec<
    Option<usize>,
>)
    requires
        notes@.len() == fft_size / 2,
    ensures
        map@.len() == fft_size / 2,
        forall|bin: int|
            0 <= bin < map@.len() ==> match #[trigger] map@[bin] {
                Some(c) => bin > 0 && useful(fft_size as nat, bin as nat, sample_rate as int) && c
                    == pitch_class(notes@[bin] as int) && c < NUM_CHROMA,
                None => bin == 0 || !useful(fft_size as nat, bin as nat, sample_rate as int),
            },
{
    let mut map: Vec<Option<usize>> = Vec::new();
    let mut bin: usize = 0;
    while bin < notes.len()
        invariant
            bin <= notes@.len() == fft_size / 2,
            map@.len() == bin,
            forall|b: int|
                0 <= b < map@.len() ==> match #[trigger] map@[b] {
                    Some(c) => b > 0 && useful(fft_size as nat, b as nat, sample_rate as int) && c
                        == pitch_class(notes@[b] as int) && c < NUM_CHROMA,
                    None => b == 0 || !useful(fft_size as nat, b as nat, sample_rate as int),
                },
        decreases notes.len() - bin,
    {
        if bin > 0 && is_useful_bin(fft_size, bin, sample_rate) {
            map.push(Some(chroma_of_note(notes[bin])));
        } else {
            map.push(None);
        }
        bin += 1;
    }
    map
}

/// A frame holds 4096 samples.
pub proof fn law_frame_size(frame: nat, samples: nat, hop_size: nat)
    requires
        hop_size > 0,
    ensures
        frame < frames_of(samples, hop_size) <==> frame * hop_size + 4096 <= samples,
{
    law_frames_lie_within_samples(frame, samples, hop_size);
}

/// A bin counts from 32 to 8000 Hz, both included, and nowhere else.
pub proof fn law_useful_bins_are_a_band(fft_size: nat, bin: nat, sample_rate: int)
    ensures
        bin * sample_rate < 32 * fft_size ==> !useful(fft_size, bin, sample_rate),
        bin * sample_rate > 8000 * fft_size ==> !useful(fft_size, bin, sample_rate),
        bin * sample_rate >= 32 * fft_size && bin * sample_rate <= 8000 * fft_size ==> useful(
            fft_size,
            bin,
            sample_rate,
        ),
{
}

/// The pitch classes are the twelve notes from the first on, and again from each octave on,
/// upwards and downwards alike.
pub proof fn law_pitch_classes_recur(note: int)
    ensures
        0 <= note < 12 ==> pitch_class(note) == note,
        note >= 0 ==> pitch_class(note + 12) == pitch_class(note),
        pitch_class(-note) == pitch_class(note),
        0 <= pitch_class(note) < 12,
{
}

} // verus!
