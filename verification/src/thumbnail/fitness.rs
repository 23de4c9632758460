//! The search for the segment of the highest fitness.
//!
//! Which segments are candidates, which stripes of the self-similarity matrix decide the
//! fitness of one, and which candidate wins, given their scores.

use vstd::arithmetic::power2::*;
use vstd::prelude::*;
use crate::float64::{Float64, NEG_INFINITY, ONE, ZERO};
use crate::float64;
use crate::thumbnail::ssm;

verus! {

/// The pattern of 0.1.
pub const LOW_CONFIDENCE: u64 = 0x3FB9_9999_9999_999A;

/// The pattern of the single-precision 0.6, from which a stripe counts as similar.
pub const SIMILARITY_THRESHOLD: u64 = 0x3FE3_3333_4000_0000;

/// A run of frames.
#[derive(Clone, Copy, PartialEq, Eq, Structural, Debug)]
pub struct Segment {
    pub start: usize,
    pub length: usize,
}

/// `n / d`, at least one.
pub open spec fn stride(n: nat, d: nat) -> nat {
    if n / d < 1 {
        1
    } else {
        n / d
    }
}

/// How far `x` is from passing `n`.
pub open spec fn ahead(n: nat, x: nat) -> nat {
    if x <= n {
        (n + 1 - x) as nat
    } else {
        0
    }
}

/// A matrix that fits the memory has few enough frames for sums of their numbers.
proof fn lemma_few_frames(num_frames: usize)
    requires
        num_frames * num_frames <= usize::MAX,
    ensures
        4 * num_frames <= usize::MAX,
{
    if num_frames >= 4 {
        assert(4 * num_frames <= num_frames * num_frames) by (nonlinear_arith)
            requires
                num_frames >= 4,
        ;
    }
}

/// The candidates of one length, from `start` on.
pub open spec fn starts_from(num_frames: nat, length: nat, start: nat) -> Seq<(nat, nat)>
    decreases ahead(num_frames, start),
{
    if start + length <= num_frames {
        seq![(start, length)] + starts_from(num_frames, length, start + stride(num_frames, 200))
    } else {
        Seq::empty()
    }
}

/// The candidates, from one length on.
pub open spec fn lengths_from(num_frames: nat, min_len: nat, max_len: nat, length: nat) -> Seq<
    (nat, nat),
>
    decreases ahead(num_frames, length),
{
    if length <= max_len && length <= num_frames {
        starts_from(num_frames, length, 0) + lengths_from(
            num_frames,
            min_len,
            max_len,
            length + stride((max_len - min_len) as nat, 20),
        )
    } else {
        Seq::empty()
    }
}

/// The segments that are scored, in order: by their lengths, and by their starts.
pub open spec fn candidates(num_frames: nat, min_len: nat, max_len: nat) -> Seq<(nat, nat)> {
    lengths_from(num_frames, min_len, max_len, min_len)
}

/// Segments, as the specification sees them.
pub open spec fn segment_views(s: Seq<Segment>) -> Seq<(nat, nat)> {
    Seq::new(s.len(), |i: int| (s[i].start as nat, s[i].length as nat))
}

/// `n / d`, at least one.
fn stride_of(n: usize, d: usize) -> (s: usize)
    requires
        d > 0,
    ensures
        s == stride(n as nat, d as nat),
        1 <= s,
        s == 1 || s <= n,
{
    proof {
        assert(n / d <= n) by (nonlinear_arith)
            requires
                d > 0,
        ;
    }
    let q: usize = n / d;
    if q < 1 {
        1
    } else {
        q
    }
}

/// Appends the candidates of one length.
fn push_starts(out: &mut Vec<Segment>, num_frames: usize, length: usize)
    requires
        length <= num_frames,
        4 * num_frames <= usize::MAX,
    ensures
        segment_views(final(out)@) == segment_views(old(out)@) + starts_from(
            num_frames as nat,
            length as nat,
            0,
        ),
{
    let step: usize = stride_of(num_frames, 200);
    let ghost before = segment_views(out@);
    let ghost all = starts_from(num_frames as nat, length as nat, 0);
    let mut start: usize = 0;
    let ghost mut done: Seq<(nat, nat)> = Seq::empty();
    proof {
        assert(before + done =~= before);
        assert(done + all =~= all);
    }
    while start + length <= num_frames
        invariant
            length <= num_frames,
            4 * num_frames <= usize::MAX,
            start <= 2 * num_frames + 1,
            step == stride(num_frames as nat, 200),
            1 <= step,
            step == 1 || step <= num_frames,
            segment_views(out@) == before + done,
            all == starts_from(num_frames as nat, length as nat, 0),
            all == done + starts_from(num_frames as nat, length as nat, start as nat),
        decreases ahead(num_frames as nat, start as nat),
    {
        let ghost rest = starts_from(num_frames as nat, length as nat, start as nat);
        let ghost held = out@;
        let ghost next = starts_from(num_frames as nat, length as nat, (start + step) as nat);
        out.push(Segment { start, length });
        proof {
            let one = seq![(start as nat, length as nat)];
            assert(rest == one + next);
            assert(segment_views(out@) =~= segment_views(held).push(
                (start as nat, length as nat),
            ));
            assert(segment_views(out@) =~= before + (done + one));
            assert(done + (one + next) =~= (done + one) + next);
            done = done + one;
        }
        start += step;
    }
    proof {
        assert(done + Seq::<(nat, nat)>::empty() =~= done);
    }
}

/// The segments that are scored, in order.
pub fn segment_candidates(num_frames: usize, min_len: usize, max_len: usize) -> (v: Vec<Segment>)
    requires
        min_len <= max_len,
        num_frames * num_frames <= usize::MAX,
    ensures
        segment_views(v@) == candidates(num_frames as nat, min_len as nat, max_len as nat),
{
    let step: usize = stride_of(max_len - min_len, 20);
    let mut out: Vec<Segment> = Vec::new();
    let mut length: usize = min_len;
    let ghost all = candidates(num_frames as nat, min_len as nat, max_len as nat);
    let ghost mut done: Seq<(nat, nat)> = Seq::empty();
    proof {
        assert(segment_views(out@) =~= done);
        assert(done + all =~= all);
        lemma_few_frames(num_frames);
        assert(step == 1 || step <= usize::MAX / 20);
    }
    while length <= max_len && length <= num_frames
        invariant
            min_len <= max_len,
            4 * num_frames <= usize::MAX,
            step == stride((max_len - min_len) as nat, 20),
            1 <= step <= usize::MAX / 2,
            all == candidates(num_frames as nat, min_len as nat, max_len as nat),
            segment_views(out@) == done,
            all == done + lengths_from(
                num_frames as nat,
                min_len as nat,
                max_len as nat,
                length as nat,
            ),
        decreases ahead(num_frames as nat, length as nat),
    {
        let ghost rest = lengths_from(
            num_frames as nat,
            min_len as nat,
            max_len as nat,
            length as nat,
        );
        let ghost next = lengths_from(
            num_frames as nat,
            min_len as nat,
            max_len as nat,
            (length + step) as nat,
        );
        push_starts(&mut out, num_frames, length);
        proof {
            let these = starts_from(num_frames as nat, length as nat, 0);
            assert(rest == these + next);
            assert(done + (these + next) =~= (done + these) + next);
            done = done + these;
        }
        length += step;
    }
    proof {
        assert(done + Seq::<(nat, nat)>::empty() =~= done);
    }
    out
}

/// The first candidate whose score is above all earlier ones, and above which no later
/// one is. A score that is not a number never wins.
pub open spec fn best_index(scores: Seq<Float64>) -> Option<int>
    decreases scores.len(),
{
    if scores.len() == 0 {
        None
    } else {
        let best = best_index(scores.drop_last());
        if scores.last().above(best_score(scores.drop_last())) {
            Some(scores.len() - 1)
        } else {
            best
        }
    }
}

/// The score of the winner; negative infinity where there is none.
pub open spec fn best_score(scores: Seq<Float64>) -> Float64
    decreases scores.len(), 0nat,
{
    if scores.len() == 0 {
        Float64 { bits: NEG_INFINITY }
    } else if scores.last().above(best_score(scores.drop_last())) {
        scores.last()
    } else {
        best_score(scores.drop_last())
    }
}

/// The confidence in a winner: its score up to 1, or 0.1 where it is not above zero.
pub open spec fn confidence_of(score: Float64) -> Float64 {
    if score.above(Float64 { bits: ZERO }) {
        score.lesser(Float64 { bits: ONE })
    } else {
        Float64 { bits: LOW_CONFIDENCE }
    }
}

/// The segment that wins: the candidate of the best score, or a run of the target length
/// from the start where no score counts.
pub open spec fn winner(
    num_frames: nat,
    min_len: nat,
    max_len: nat,
    target_len: nat,
    scores: Seq<Float64>,
) -> (nat, nat) {
    match best_index(scores) {
        Some(i) => candidates(num_frames, min_len, max_len)[i],
        None => (
            0,
            if target_len < num_frames {
                target_len
            } else {
                num_frames
            },
        ),
    }
}

/// Finds the best segment, given the score of each candidate. Returns its start, its
/// length and the confidence in it.
pub fn find_best_segment(
    num_frames: usize,
    min_len: usize,
    max_len: usize,
    target_len: usize,
    scores: &Vec<Float64>,
) -> (r: (usize, usize, Float64))
    requires
        min_len <= max_len,
        num_frames * num_frames <= usize::MAX,
        scores@.len() == candidates(num_frames as nat, min_len as nat, max_len as nat).len(),
    ensures
        (r.0 as nat, r.1 as nat) == winner(
            num_frames as nat,
            min_len as nat,
            max_len as nat,
            target_len as nat,
            scores@,
        ),
        r.2 == confidence_of(best_score(scores@)),
{
    let segments: Vec<Segment> = segment_candidates(num_frames, min_len, max_len);
    let mut best: Segment = Segment {
        start: 0,
        length: if target_len < num_frames {
            target_len
        } else {
            num_frames
        },
    };
    let mut best_fitness: Float64 = Float64 { bits: NEG_INFINITY };
    let mut i: usize = 0;
    let ghost all = candidates(num_frames as nat, min_len as nat, max_len as nat);
    proof {
        assert(scores@.take(0) =~= Seq::<Float64>::empty());
        assert(segment_views(segments@).len() == segments@.len());
    }
    while i < scores.len()
        invariant
            i <= scores@.len() == segments@.len(),
            segment_views(segments@) == all,
            all == candidates(num_frames as nat, min_len as nat, max_len as nat),
            best_fitness == best_score(scores@.take(i as int)),
            (best.start as nat, best.length as nat) == winner(
                num_frames as nat,
                min_len as nat,
                max_len as nat,
                target_len as nat,
                scores@.take(i as int),
            ),
        decreases scores.len() - i,
    {
        proof {
            assert(scores@.take(i + 1).drop_last() =~= scores@.take(i as int));
            assert(segment_views(segments@)[i as int] == all[i as int]);
        }
        if scores[i].greater(best_fitness) {
            best_fitness = scores[i];
            best = segments[i];
        }
        i += 1;
    }
    proof {
        assert(scores@.take(i as int) =~= scores@);
    }
    let confidence: Float64 = if best_fitness.greater(Float64 { bits: ZERO }) {
        best_fitness.min(Float64 { bits: ONE })
    } else {
        Float64 { bits: LOW_CONFIDENCE }
    };
    (best.start, best.length, confidence)
}

/// The positions at which a segment is compared, from `pos` on.
pub open spec fn positions_from(num_frames: nat, length: nat, pos: nat) -> Seq<nat>
    decreases ahead(num_frames, pos),
{
    if pos + length <= num_frames {
        seq![pos] + positions_from(num_frames, length, pos + stride(num_frames, 100))
    } else {
        Seq::empty()
    }
}

/// The positions at which a segment of the given length is compared.
pub open spec fn positions(num_frames: nat, length: nat) -> Seq<nat> {
    positions_from(num_frames, length, 0)
}

/// The offsets at which a diagonal stripe is sampled, from `k` on.
pub open spec fn offsets_from(length: nat, k: nat) -> Seq<nat>
    decreases ahead(length, k),
{
    if k < length {
        seq![k] + offsets_from(length, k + stride(length, 16))
    } else {
        Seq::empty()
    }
}

/// The offsets at which the diagonal stripe of a segment is sampled.
pub open spec fn offsets(length: nat) -> Seq<nat> {
    offsets_from(length, 0)
}

/// Numbers, as the specification sees them.
pub open spec fn numbers(v: Seq<usize>) -> Seq<nat> {
    Seq::new(v.len(), |i: int| v[i] as nat)
}

/// The positions at which a segment of the given length is compared.
pub fn segment_positions(num_frames: usize, length: usize) -> (v: Vec<usize>)
    requires
        num_frames * num_frames <= usize::MAX,
    ensures
        numbers(v@) == positions(num_frames as nat, length as nat),
{
    let mut v: Vec<usize> = Vec::new();
    if length > num_frames {
        proof {
            assert(numbers(v@) =~= positions(num_frames as nat, length as nat));
        }
        return v;
    }
    proof {
        lemma_few_frames(num_frames);
    }
    let step: usize = stride_of(num_frames, 100);
    let mut pos: usize = 0;
    let ghost all = positions(num_frames as nat, length as nat);
    proof {
        assert(numbers(v@) + all =~= all);
    }
    while pos + length <= num_frames
        invariant
            length <= num_frames,
            4 * num_frames <= usize::MAX,
            pos <= 2 * num_frames + 1,
            step == stride(num_frames as nat, 100),
            1 <= step,
            step == 1 || step <= num_frames,
            all == positions(num_frames as nat, length as nat),
            all == numbers(v@) + positions_from(num_frames as nat, length as nat, pos as nat),
        decreases ahead(num_frames as nat, pos as nat),
    {
        let ghost next = positions_from(num_frames as nat, length as nat, (pos + step) as nat);
        let ghost done = numbers(v@);
        v.push(pos);
        proof {
            assert(numbers(v@) =~= done.push(pos as nat));
            assert(done + (seq![pos as nat] + next) =~= numbers(v@) + next);
        }
        pos += step;
    }
    proof {
        assert(numbers(v@) + Seq::<nat>::empty() =~= numbers(v@));
    }
    v
}

/// The offsets at which the diagonal stripe of a segment is sampled.
pub fn stripe_offsets(length: usize) -> (v: Vec<usize>)
    requires
        4 * length <= usize::MAX,
    ensures
        numbers(v@) == offsets(length as nat),
{
    let mut v: Vec<usize> = Vec::new();
    let step: usize = stride_of(length, 16);
    let mut k: usize = 0;
    let ghost all = offsets(length as nat);
    proof {
        assert(numbers(v@) + all =~= all);
    }
    while k < length
        invariant
            4 * length <= usize::MAX,
            k <= 2 * length + 1,
            step == stride(length as nat, 16),
            1 <= step,
            step == 1 || step <= length,
            all == offsets(length as nat),
            all == numbers(v@) + offsets_from(length as nat, k as nat),
        decreases ahead(length as nat, k as nat),
    {
        let ghost next = offsets_from(length as nat, (k + step) as nat);
        let ghost done = numbers(v@);
        v.push(k);
        proof {
            assert(numbers(v@) =~= done.push(k as nat));
            assert(done + (seq![k as nat] + next) =~= numbers(v@) + next);
        }
        k += step;
    }
    proof {
        assert(numbers(v@) + Seq::<nat>::empty() =~= numbers(v@));
    }
    v
}

/// The cell of the matrix that compares a segment with a position, at an offset.
pub fn stripe_cell(num_frames: usize, start: usize, pos: usize, k: usize, length: usize) -> (at:
    usize)
    requires
        k < length,
        start + length <= num_frames,
        pos + length <= num_frames,
        num_frames * num_frames <= usize::MAX,
    ensures
        at == ssm::cell(num_frames as nat, (start + k) as nat, (pos + k) as nat),
        at < num_frames * num_frames,
{
    ssm::cell_index(num_frames, start + k, pos + k)
}

/// Whether a position counts as a repetition of the segment: it is the segment itself, or
/// the average similarity of its stripe reaches the threshold.
pub open spec fn repeats(start: nat, pos: nat, average: Float64) -> bool {
    pos == start || average.at_least(Float64 { bits: SIMILARITY_THRESHOLD })
}

/// The number of positions that count as repetitions.
pub open spec fn repetitions(start: nat, at: Seq<nat>, averages: Seq<Float64>) -> nat
    decreases at.len(),
{
    if at.len() == 0 {
        0
    } else {
        repetitions(start, at.drop_last(), averages.drop_last()) + if repeats(
            start,
            at.last(),
            averages.last(),
        ) {
            1nat
        } else {
            0nat
        }
    }
}

/// Which positions count as repetitions of the segment, given the average similarity of
/// the stripe of each, and how many frames they cover.
pub fn covered_frames(start: usize, length: usize, at: &Vec<usize>, averages: &Vec<Float64>) -> (r:
    (Vec<bool>, usize))
    requires
        at@.len() == averages@.len(),
        at@.len() * length <= usize::MAX,
    ensures
        r.0@.len() == at@.len(),
        forall|i: int|
            0 <= i < at@.len() ==> #[trigger] r.0@[i] == repeats(
                start as nat,
                at@[i] as nat,
                averages@[i],
            ),
        r.1 == repetitions(start as nat, numbers(at@), averages@) * length,
{
    let mut hits: Vec<bool> = Vec::new();
    let mut covered: usize = 0;
    let mut i: usize = 0;
    let threshold: Float64 = Float64 { bits: SIMILARITY_THRESHOLD };
    let ghost all = numbers(at@);
    proof {
        assert(0 * length == 0);
    }
    while i < at.len()
        invariant
            i <= at@.len() == averages@.len(),
            all == numbers(at@),
            threshold == (Float64 { bits: SIMILARITY_THRESHOLD }),
            at@.len() * length <= usize::MAX,
            hits@.len() == i,
            forall|k: int|
                0 <= k < i ==> #[trigger] hits@[k] == repeats(
                    start as nat,
                    at@[k] as nat,
                    averages@[k],
                ),
            repetitions(start as nat, all.take(i as int), averages@.take(i as int)) <= i,
            covered == repetitions(
                start as nat,
                all.take(i as int),
                averages@.take(i as int),
            ) * length,
        decreases at.len() - i,
    {
        let hit: bool = at[i] == start || averages[i].greater_or_equal(threshold);
        proof {
            let (p, a) = (all.take(i + 1), averages@.take(i + 1));
            assert(p.drop_last() =~= all.take(i as int));
            assert(a.drop_last() =~= averages@.take(i as int));
            let n = repetitions(start as nat, all.take(i as int), averages@.take(i as int));
            let len = at@.len();
            assert((n + 1) * length == n * length + length && (n + 1) * length <= len * length)
                by (nonlinear_arith)
                requires
                    n + 1 <= len,
            ;
        }
        if hit {
            covered = covered + length;
        }
        hits.push(hit);
        i += 1;
    }
    proof {
        assert(all.take(i as int) =~= all);
        assert(averages@.take(i as int) =~= averages@);
    }
    (hits, covered)
}

/// The number of positions by which the similarity is averaged.
pub open spec fn position_count(num_frames: nat, length: nat) -> nat {
    (if length <= num_frames {
        (num_frames - length) as nat
    } else {
        0
    }) / stride(num_frames, 100) + 1
}

/// The number of positions by which the similarity is averaged.
pub fn num_positions(num_frames: usize, length: usize) -> (n: usize)
    ensures
        n == position_count(num_frames as nat, length as nat),
{
    let step: usize = stride_of(num_frames, 100);
    let gap: usize = if length <= num_frames {
        num_frames - length
    } else {
        0
    };
    proof {
        assert(gap / step <= gap) by (nonlinear_arith)
            requires
                step >= 1,
        ;
        if step == 1 {
            assert(gap / step == gap) by (nonlinear_arith)
                requires
                    step == 1,
            ;
            assert(num_frames / 100 < 2);
        } else {
            assert(gap / step <= gap / 2) by (nonlinear_arith)
                requires
                    step >= 2,
            ;
        }
    }
    gap / step + 1
}

proof fn lemma_starts_from(num_frames: nat, length: nat, start: nat)
    ensures
        forall|i: int|
            0 <= i < starts_from(num_frames, length, start).len() ==> {
                let c = #[trigger] starts_from(num_frames, length, start)[i];
                c.1 == length && c.0 + c.1 <= num_frames
            },
    decreases ahead(num_frames, start),
{
    if start + length <= num_frames {
        let next = start + stride(num_frames, 200);
        lemma_starts_from(num_frames, length, next);
        let (all, rest) = (
            starts_from(num_frames, length, start),
            starts_from(num_frames, length, next),
        );
        assert forall|i: int| 0 <= i < all.len() implies {
            let c = #[trigger] all[i];
            c.1 == length && c.0 + c.1 <= num_frames
        } by {
            if i > 0 {
                assert(all[i] == rest[i - 1]);
            }
        }
    }
}

proof fn lemma_lengths_from(num_frames: nat, min_len: nat, max_len: nat, length: nat)
    requires
        min_len <= length,
    ensures
        forall|i: int|
            0 <= i < lengths_from(num_frames, min_len, max_len, length).len() ==> {
                let c = #[trigger] lengths_from(num_frames, min_len, max_len, length)[i];
                min_len <= c.1 <= max_len && c.0 + c.1 <= num_frames
            },
    decreases ahead(num_frames, length),
{
    if length <= max_len && length <= num_frames {
        let next = length + stride((max_len - min_len) as nat, 20);
        lemma_lengths_from(num_frames, min_len, max_len, next);
        lemma_starts_from(num_frames, length, 0);
        let all = lengths_from(num_frames, min_len, max_len, length);
        let these = starts_from(num_frames, length, 0);
        let rest = lengths_from(num_frames, min_len, max_len, next);
        assert forall|i: int| 0 <= i < all.len() implies {
            let c = #[trigger] all[i];
            min_len <= c.1 <= max_len && c.0 + c.1 <= num_frames
        } by {
            if i < these.len() {
                assert(all[i] == these[i]);
            } else {
                assert(all[i] == rest[i - these.len()]);
            }
        }
    }
}

/// Every candidate lies within the recording, and its length within the bounds.
pub proof fn law_candidates_lie_within_bounds(num_frames: nat, min_len: nat, max_len: nat, i: int)
    requires
        0 <= i < candidates(num_frames, min_len, max_len).len(),
    ensures
        ({
            let c = candidates(num_frames, min_len, max_len)[i];
            min_len <= c.1 <= max_len && c.0 + c.1 <= num_frames
        }),
{
    lemma_lengths_from(num_frames, min_len, max_len, min_len);
}

/// Whether one candidate comes before another: by its length, and by its start where they
/// are equally long.
pub open spec fn comes_before(a: (nat, nat), b: (nat, nat)) -> bool {
    a.1 < b.1 || (a.1 == b.1 && a.0 < b.0)
}

proof fn lemma_starts_rise(num_frames: nat, length: nat, start: nat)
    ensures
        ({
            let all = starts_from(num_frames, length, start);
            &&& forall|i: int|
                0 <= i < all.len() ==> (#[trigger] all[i]).1 == length && all[i].0 >= start
            &&& forall|i: int, j: int|
                0 <= i < j < all.len() ==> comes_before(#[trigger] all[i], #[trigger] all[j])
        }),
    decreases ahead(num_frames, start),
{
    if start + length <= num_frames {
        let next = start + stride(num_frames, 200);
        lemma_starts_rise(num_frames, length, next);
        let (all, rest) = (
            starts_from(num_frames, length, start),
            starts_from(num_frames, length, next),
        );
        assert forall|i: int| 0 <= i < all.len() implies (#[trigger] all[i]).1 == length
            && all[i].0 >= start by {
            if i > 0 {
                assert(all[i] == rest[i - 1]);
            }
        }
        assert forall|i: int, j: int| 0 <= i < j < all.len() implies comes_before(
            #[trigger] all[i],
            #[trigger] all[j],
        ) by {
            assert(all[j] == rest[j - 1]);
            if i > 0 {
                assert(all[i] == rest[i - 1]);
            }
        }
    }
}

proof fn lemma_lengths_rise(num_frames: nat, min_len: nat, max_len: nat, length: nat)
    ensures
        ({
            let all = lengths_from(num_frames, min_len, max_len, length);
            &&& forall|i: int| 0 <= i < all.len() ==> (#[trigger] all[i]).1 >= length
            &&& forall|i: int, j: int|
                0 <= i < j < all.len() ==> comes_before(#[trigger] all[i], #[trigger] all[j])
        }),
    decreases ahead(num_frames, length),
{
    if length <= max_len && length <= num_frames {
        let next = length + stride((max_len - min_len) as nat, 20);
        lemma_lengths_rise(num_frames, min_len, max_len, next);
        lemma_starts_rise(num_frames, length, 0);
        let all = lengths_from(num_frames, min_len, max_len, length);
        let these = starts_from(num_frames, length, 0);
        let rest = lengths_from(num_frames, min_len, max_len, next);
        let n = these.len() as int;
        assert forall|i: int| 0 <= i < all.len() implies (#[trigger] all[i]).1 >= length by {
            if i < n {
                assert(all[i] == these[i]);
            } else {
                assert(all[i] == rest[i - n]);
            }
        }
        assert forall|i: int, j: int| 0 <= i < j < all.len() implies comes_before(
            #[trigger] all[i],
            #[trigger] all[j],
        ) by {
            if j < n {
                assert(all[i] == these[i] && all[j] == these[j]);
            } else {
                assert(all[j] == rest[j - n]);
                if i < n {
                    assert(all[i] == these[i]);
                } else {
                    assert(all[i] == rest[i - n]);
                }
            }
        }
    }
}

/// The candidates rise by their lengths, and by their starts where they are equally long.
pub proof fn law_candidates_rise(num_frames: nat, min_len: nat, max_len: nat, i: int, j: int)
    requires
        0 <= i < j < candidates(num_frames, min_len, max_len).len(),
    ensures
        comes_before(
            candidates(num_frames, min_len, max_len)[i],
            candidates(num_frames, min_len, max_len)[j],
        ),
{
    lemma_lengths_rise(num_frames, min_len, max_len, min_len);
}

/// Whether `x` is reached from `from` by whole steps.
pub open spec fn stepped(from: nat, step: nat, x: nat) -> bool {
    x >= from && (x - from) as nat % step == 0
}

/// A step on: what is reached from the next place, and the place itself.
proof fn lemma_stepped(from: nat, step: nat, x: nat)
    requires
        step >= 1,
    ensures
        stepped(from, step, x) <==> x == from || stepped(from + step, step, x),
{
    if x > from {
        let gap = (x - from) as nat;
        if gap < step {
            vstd::arithmetic::div_mod::lemma_small_mod(gap, step);
        } else {
            let less = (gap - step) as nat;
            vstd::arithmetic::div_mod::lemma_mod_add_multiples_vanish(less as int, step as int);
            assert(less + step == gap);
        }
    } else if x == from {
        vstd::arithmetic::div_mod::lemma_small_mod(0, step);
    }
}

proof fn lemma_starts_are_strided(num_frames: nat, length: nat, start: nat, c: (nat, nat))
    ensures
        starts_from(num_frames, length, start).contains(c) <==> c.1 == length && c.0 + length
            <= num_frames && stepped(start, stride(num_frames, 200), c.0),
    decreases ahead(num_frames, start),
{
    let step = stride(num_frames, 200);
    let all = starts_from(num_frames, length, start);
    lemma_stepped(start, step, c.0);
    if start + length <= num_frames {
        let rest = starts_from(num_frames, length, start + step);
        lemma_starts_are_strided(num_frames, length, start + step, c);
        assert(all[0] == (start, length));
        if all.contains(c) && c != (start, length) {
            let i = choose|i: int| 0 <= i < all.len() && all[i] == c;
            assert(rest[i - 1] == c);
        }
        if rest.contains(c) {
            let i = choose|i: int| 0 <= i < rest.len() && rest[i] == c;
            assert(all[i + 1] == c);
        }
    }
}

proof fn lemma_lengths_are_strided(
    num_frames: nat,
    min_len: nat,
    max_len: nat,
    length: nat,
    c: (nat, nat),
)
    ensures
        lengths_from(num_frames, min_len, max_len, length).contains(c) <==> {
            &&& c.1 <= max_len
            &&& stepped(length, stride((max_len - min_len) as nat, 20), c.1)
            &&& c.0 + c.1 <= num_frames
            &&& stepped(0, stride(num_frames, 200), c.0)
        },
    decreases ahead(num_frames, length),
{
    let step = stride((max_len - min_len) as nat, 20);
    let all = lengths_from(num_frames, min_len, max_len, length);
    lemma_stepped(length, step, c.1);
    if length <= max_len && length <= num_frames {
        let these = starts_from(num_frames, length, 0);
        let rest = lengths_from(num_frames, min_len, max_len, length + step);
        lemma_starts_are_strided(num_frames, length, 0, c);
        lemma_lengths_are_strided(num_frames, min_len, max_len, length + step, c);
        let n = these.len() as int;
        if all.contains(c) {
            let i = choose|i: int| 0 <= i < all.len() && all[i] == c;
            if i < n {
                assert(these[i] == c);
            } else {
                assert(rest[i - n] == c);
            }
        }
        if these.contains(c) {
            let i = choose|i: int| 0 <= i < these.len() && these[i] == c;
            assert(all[i] == c);
        }
        if rest.contains(c) {
            let i = choose|i: int| 0 <= i < rest.len() && rest[i] == c;
            assert(all[n + i] == c);
        }
    }
}

/// The candidates are exactly the segments within the recording whose lengths lie between
/// the bounds, at whole steps from the least, and whose starts lie at whole steps from zero.
pub proof fn law_candidates_are_the_strided_segments(
    num_frames: nat,
    min_len: nat,
    max_len: nat,
    c: (nat, nat),
)
    ensures
        candidates(num_frames, min_len, max_len).contains(c) <==> {
            &&& c.1 <= max_len
            &&& stepped(min_len, stride((max_len - min_len) as nat, 20), c.1)
            &&& c.0 + c.1 <= num_frames
            &&& stepped(0, stride(num_frames, 200), c.0)
        },
{
    lemma_lengths_are_strided(num_frames, min_len, max_len, min_len, c);
}

proof fn lemma_best(scores: Seq<Float64>)
    ensures
        !best_score(scores).is_nan(),
        match best_index(scores) {
            Some(i) => 0 <= i < scores.len() && best_score(scores) == scores[i],
            None => best_score(scores) == (Float64 { bits: NEG_INFINITY }),
        },
        forall|k: int| 0 <= k < scores.len() ==> !(#[trigger] scores[k]).above(best_score(scores)),
        match best_index(scores) {
            Some(i) => forall|k: int|
                0 <= k < i && !(#[trigger] scores[k]).is_nan() ==> scores[i].above(scores[k]),
            None => true,
        },
    decreases scores.len(),
{
    if scores.len() > 0 {
        let rest = scores.drop_last();
        lemma_best(rest);
        assert forall|k: int| 0 <= k < rest.len() implies #[trigger] rest[k] == scores[k] by {}
        if scores.last().above(best_score(rest)) {
            assert forall|k: int| 0 <= k < scores.len() implies !(#[trigger] scores[k]).above(
                scores.last(),
            ) by {
                if k < rest.len() {
                    assert(!rest[k].above(best_score(rest)));
                }
            }
            assert forall|k: int|
                0 <= k < scores.len() - 1 && !(#[trigger] scores[k]).is_nan() implies scores.last().above(
            scores[k]) by {
                assert(!rest[k].above(best_score(rest)));
            }
        } else {
            assert forall|k: int| 0 <= k < scores.len() implies !(#[trigger] scores[k]).above(
                best_score(rest),
            ) by {
                if k < rest.len() {
                    assert(!rest[k].above(best_score(rest)));
                }
            }
            if best_index(rest) is Some {
                let i = best_index(rest)->Some_0;
                assert forall|k: int| 0 <= k < i && !(#[trigger] scores[k]).is_nan() implies scores[i].above(
                scores[k]) by {
                    assert(!rest[k].is_nan());
                }
            }
        }
    }
}

/// The winner is the first of the candidates with the highest score: it is above every
/// number before it, and none after it is above it.
pub proof fn law_winner_has_the_highest_score(scores: Seq<Float64>, k: int)
    requires
        best_index(scores) is Some,
        0 <= k < scores.len(),
    ensures
        ({
            let i = best_index(scores)->Some_0;
            &&& 0 <= i < scores.len()
            &&& !scores[k].above(scores[i])
            &&& k < i && !scores[k].is_nan() ==> scores[i].above(scores[k])
        }),
{
    lemma_best(scores);
    let i = best_index(scores)->Some_0;
    assert(!scores[k].above(best_score(scores)));
}

/// The segment that is found lies within the recording; where some score counted, its
/// length is within the bounds.
pub proof fn law_found_segment_lies_within_bounds(
    num_frames: nat,
    min_len: nat,
    max_len: nat,
    target_len: nat,
    scores: Seq<Float64>,
)
    requires
        scores.len() == candidates(num_frames, min_len, max_len).len(),
    ensures
        ({
            let w = winner(num_frames, min_len, max_len, target_len, scores);
            &&& w.0 + w.1 <= num_frames
            &&& best_index(scores) is Some ==> min_len <= w.1 <= max_len
        }),
{
    lemma_best(scores);
    if best_index(scores) is Some {
        law_candidates_lie_within_bounds(
            num_frames,
            min_len,
            max_len,
            best_index(scores)->Some_0,
        );
    }
}

/// A finite number is above negative infinity.
proof fn lemma_finite_is_above(x: Float64)
    requires
        x.exponent() < 2047,
    ensures
        x.above(Float64 { bits: NEG_INFINITY }),
{
    let low = Float64 { bits: NEG_INFINITY };
    assert(low.negative() && low.magnitude() == 0x7FF0_0000_0000_0000 && !low.is_nan());
    assert(x.magnitude() < low.magnitude());
    float64::lemma_units_increase(x, low);
}

/// Where all scores are finite and some segment fits, the segment that is found is a
/// candidate of the highest score; among those of the same score it is the shortest, and
/// among those that are equally long the first.
pub proof fn law_best_segment_is_found(
    num_frames: nat,
    min_len: nat,
    max_len: nat,
    target_len: nat,
    scores: Seq<Float64>,
)
    requires
        min_len <= max_len,
        min_len <= num_frames,
        scores.len() == candidates(num_frames, min_len, max_len).len(),
        forall|k: int| 0 <= k < scores.len() ==> (#[trigger] scores[k]).exponent() < 2047,
    ensures
        ({
            let all = candidates(num_frames, min_len, max_len);
            let w = winner(num_frames, min_len, max_len, target_len, scores);
            &&& all.contains(w)
            &&& w.0 + w.1 <= num_frames
            &&& min_len <= w.1 <= max_len
            &&& forall|k: int|
                #![trigger scores[k]]
                0 <= k < scores.len() ==> {
                    &&& best_score(scores).at_least(scores[k])
                    &&& scores[k].same_number(best_score(scores)) ==> all[k] == w
                        || comes_before(w, all[k])
                }
        }),
{
    let all = candidates(num_frames, min_len, max_len);
    assert(all.len() > 0) by {
        let these = starts_from(num_frames, min_len, 0);
        assert(these[0] == (0nat, min_len));
        assert(all[0] == these[0]);
    }
    lemma_best(scores);
    lemma_finite_is_above(scores[0]);
    assert(!scores[0].above(best_score(scores)));
    assert(best_index(scores) is Some);
    let i = best_index(scores)->Some_0;
    law_candidates_lie_within_bounds(num_frames, min_len, max_len, i);
    let w = winner(num_frames, min_len, max_len, target_len, scores);
    assert(all[i] == w);
    assert forall|k: int| #![trigger scores[k]] 0 <= k < scores.len() implies {
        &&& best_score(scores).at_least(scores[k])
        &&& scores[k].same_number(best_score(scores)) ==> all[k] == w || comes_before(w, all[k])
    } by {
        assert(!scores[k].above(best_score(scores)));
        if k < i {
            assert(scores[i].above(scores[k]));
        } else if k > i {
            law_candidates_rise(num_frames, min_len, max_len, i, k);
        }
    }
}

/// The confidence in a segment is above zero and at most one.
pub proof fn law_confidence_is_a_fraction(scores: Seq<Float64>)
    ensures
        confidence_of(best_score(scores)).above(Float64 { bits: ZERO }),
        (Float64 { bits: ONE }).at_least(confidence_of(best_score(scores))),
{
    lemma_best(scores);
    let (zero, one, low) = (
        Float64 { bits: ZERO },
        Float64 { bits: ONE },
        Float64 { bits: LOW_CONFIDENCE },
    );
    assert(!zero.is_nan() && !one.is_nan() && !low.is_nan());
    assert(zero.magnitude() < low.magnitude() < one.magnitude());
    float64::lemma_units_increase(zero, low);
    float64::lemma_units_increase(low, one);
}

proof fn lemma_positions_count(num_frames: nat, length: nat, pos: nat)
    requires
        pos + length <= num_frames,
    ensures
        positions_from(num_frames, length, pos).len() == (num_frames - length - pos) as nat
            / stride(num_frames, 100) + 1,
    decreases ahead(num_frames, pos),
{
    let step = stride(num_frames, 100);
    let gap = (num_frames - length - pos) as nat;
    reveal_with_fuel(positions_from, 2);
    if pos + step + length <= num_frames {
        lemma_positions_count(num_frames, length, pos + step);
        let less = (gap - step) as nat;
        assert(gap / step == less / step + 1) by (nonlinear_arith)
            requires
                step >= 1,
                gap == less + step,
        ;
    } else {
        assert(gap / step == 0) by (nonlinear_arith)
            requires
                step >= 1,
                gap < step,
        ;
    }
}

/// The similarity of a segment that fits the recording is averaged over exactly the
/// positions at which it is compared.
pub proof fn law_average_is_over_all_positions(num_frames: nat, length: nat)
    requires
        length <= num_frames,
    ensures
        positions(num_frames, length).len() == position_count(num_frames, length),
{
    lemma_positions_count(num_frames, length, 0);
}

proof fn lemma_positions_fit(num_frames: nat, length: nat, pos: nat)
    ensures
        forall|i: int|
            0 <= i < positions_from(num_frames, length, pos).len() ==> #[trigger] positions_from(
                num_frames,
                length,
                pos,
            )[i] + length <= num_frames,
    decreases ahead(num_frames, pos),
{
    if pos + length <= num_frames {
        let next = pos + stride(num_frames, 100);
        lemma_positions_fit(num_frames, length, next);
        let (all, rest) = (
            positions_from(num_frames, length, pos),
            positions_from(num_frames, length, next),
        );
        assert forall|i: int| 0 <= i < all.len() implies #[trigger] all[i] + length
            <= num_frames by {
            if i > 0 {
                assert(all[i] == rest[i - 1]);
            }
        }
    }
}

proof fn lemma_offsets_fit(length: nat, k: nat)
    ensures
        forall|i: int|
            0 <= i < offsets_from(length, k).len() ==> #[trigger] offsets_from(length, k)[i]
                < length,
        offsets_from(length, k).len() == 0 <==> k >= length,
    decreases ahead(length, k),
{
    if k < length {
        let next = k + stride(length, 16);
        lemma_offsets_fit(length, next);
        let (all, rest) = (offsets_from(length, k), offsets_from(length, next));
        assert forall|i: int| 0 <= i < all.len() implies #[trigger] all[i] < length by {
            if i > 0 {
                assert(all[i] == rest[i - 1]);
            }
        }
    }
}

/// Every cell by which a candidate is compared lies within the matrix, and a segment that
/// is not empty is compared by at least one cell at each position.
pub proof fn law_stripes_lie_within_matrix(
    num_frames: nat,
    start: nat,
    length: nat,
    p: int,
    o: int,
)
    requires
        start + length <= num_frames,
        0 <= p < positions(num_frames, length).len(),
        0 <= o < offsets(length).len(),
    ensures
        ({
            let (pos, k) = (positions(num_frames, length)[p], offsets(length)[o]);
            pos + k < num_frames && start + k < num_frames && ssm::cell(
                num_frames,
                start + k,
                pos + k,
            ) < num_frames * num_frames
        }),
        length > 0 ==> offsets(length).len() > 0,
{
    lemma_positions_fit(num_frames, length, 0);
    lemma_offsets_fit(length, 0);
    let (pos, k) = (positions(num_frames, length)[p], offsets(length)[o]);
    assert(pos + length <= num_frames && k < length);
    ssm::law_cells_lie_within_matrix(num_frames, start + k, pos + k);
}

/// The number by which a stripe counts as similar: 0.6 in single precision, which is
/// 10066330 over 2 to the power 24.
proof fn lemma_similarity_threshold()
    ensures
        !(Float64 { bits: SIMILARITY_THRESHOLD }).is_nan(),
        (Float64 { bits: SIMILARITY_THRESHOLD }).signed_units() == 10066330 * pow2(1050),
{
    let t = Float64 { bits: SIMILARITY_THRESHOLD };
    assert(t.magnitude() == 0x3FE3_3333_4000_0000);
    assert(t.exponent() == 1022 && t.fraction() == 0x3_3333_4000_0000);
    assert(t.significand() == 0x13_3333_4000_0000);
    assert(t.shift() == 1021);
    lemma_pow2_adds(29, 1021);
    lemma2_to64();
    assert(pow2(29) == 0x2000_0000);
    let p = pow2(1021);
    assert(10066330 * (0x2000_0000 * p) == 0x13_3333_4000_0000 * p) by (nonlinear_arith);
}

/// Whatever the start, a position counts as a repetition where its average is a number of at
/// least 0.6 (10066330 over 2 to the power 24, in units of 2 to the power -1074), and at the
/// start itself; a position elsewhere with a lower average, or one that is not a number, does
/// not. The start matters only by whether the position is the start.
pub proof fn law_similar_positions_are_repetitions(
    start: nat,
    other: nat,
    pos: nat,
    average: Float64,
)
    ensures
        repeats(pos, pos, average),
        !average.is_nan() && average.signed_units() >= 10066330 * pow2(1050) ==> repeats(
            start,
            pos,
            average,
        ),
        pos != start && average.is_nan() ==> !repeats(start, pos, average),
        pos != start && average.signed_units() < 10066330 * pow2(1050) ==> !repeats(
            start,
            pos,
            average,
        ),
        pos != start && pos != other ==> repeats(start, pos, average) == repeats(
            other,
            pos,
            average,
        ),
{
    lemma_similarity_threshold();
}

/// The positions that count as repetitions, as a set.
pub open spec fn repeated_at(start: nat, at: Seq<nat>, averages: Seq<Float64>) -> Set<int> {
    Set::new(
        |i: int|
            0 <= i < at.len() && (at[i] == start || (!averages[i].is_nan()
                && averages[i].signed_units() >= 10066330 * pow2(1050))),
    )
}

/// The repetitions are counted one by one: as many as there are positions at the start or
/// with an average of at least 0.6.
pub proof fn law_repetitions_are_counted(start: nat, at: Seq<nat>, averages: Seq<Float64>)
    requires
        at.len() == averages.len(),
    ensures
        repeated_at(start, at, averages).finite(),
        repetitions(start, at, averages) == repeated_at(start, at, averages).len(),
    decreases at.len(),
{
    let all = repeated_at(start, at, averages);
    if at.len() == 0 {
        assert(all =~= Set::<int>::empty());
    } else {
        let (p, a) = (at.drop_last(), averages.drop_last());
        let n = at.len() - 1;
        law_repetitions_are_counted(start, p, a);
        let rest = repeated_at(start, p, a);
        law_similar_positions_are_repetitions(start, start, at.last(), averages.last());
        if repeats(start, at.last(), averages.last()) {
            assert(all =~= rest.insert(n));
        } else {
            assert(all =~= rest);
        }
    }
}

/// More similarity never covers less: a position that repeats with one average repeats with
/// every number above it.
pub proof fn law_more_similarity_covers_no_less(start: nat, pos: nat, a: Float64, b: Float64)
    requires
        repeats(start, pos, a),
        b.above(a),
    ensures
        repeats(start, pos, b),
{
}

/// A step is a whole part of the range, and at least one.
pub proof fn law_stride_is_a_whole_part(n: nat, d: nat)
    requires
        d > 0,
    ensures
        n < d ==> stride(n, d) == 1,
        n >= d ==> stride(n, d) >= 1 && stride(n, d) * d <= n < (stride(n, d) + 1) * d,
{
    let q = n / d;
    vstd::arithmetic::div_mod::lemma_fundamental_div_mod(n as int, d as int);
    assert(q * d <= n < (q + 1) * d) by (nonlinear_arith)
        requires
            d > 0,
            n == d * q + n % d,
            0 <= n % d < d,
    ;
    if n < d {
        assert(q == 0) by (nonlinear_arith)
            requires
                q * d <= n < d,
                q >= 0,
        ;
    } else {
        assert(q >= 1) by (nonlinear_arith)
            requires
                n < (q + 1) * d,
                n >= d,
                q >= 0,
        ;
    }
}

proof fn lemma_positions_step(num_frames: nat, length: nat, pos: nat, i: nat)
    ensures
        ({
            let (all, step) = (
                positions_from(num_frames, length, pos),
                stride(num_frames, 100),
            );
            &&& i < all.len() <==> pos + i * step + length <= num_frames
            &&& i < all.len() ==> all[i as int] == pos + i * step
        }),
    decreases i,
{
    let (all, step) = (positions_from(num_frames, length, pos), stride(num_frames, 100));
    if i == 0 {
        assert(0 * step == 0);
        if pos + length <= num_frames {
            assert(all[0] == pos);
        }
    } else {
        let less = (i - 1) as nat;
        assert(i * step == less * step + step) by (nonlinear_arith)
            requires
                i == less + 1,
        ;
        assert(less * step >= 0) by (nonlinear_arith);
        if pos + length <= num_frames {
            let rest = positions_from(num_frames, length, pos + step);
            lemma_positions_step(num_frames, length, pos + step, less);
            assert(all.len() == rest.len() + 1);
            if i < all.len() {
                assert(all[i as int] == rest[less as int]);
            }
        }
    }
}

/// A segment is compared at every place of the recording that it fits at, at equal steps from
/// its first frame: a hundredth of the recording, or one frame.
pub proof fn law_positions_are_equally_spaced(num_frames: nat, length: nat, i: nat)
    ensures
        i < positions(num_frames, length).len() <==> i * stride(num_frames, 100) + length
            <= num_frames,
        i < positions(num_frames, length).len() ==> positions(num_frames, length)[i as int] == i
            * stride(num_frames, 100),
{
    lemma_positions_step(num_frames, length, 0, i);
}

proof fn lemma_offsets_step(length: nat, k: nat, i: nat)
    ensures
        ({
            let (all, step) = (offsets_from(length, k), stride(length, 16));
            &&& i < all.len() <==> k + i * step < length
            &&& i < all.len() ==> all[i as int] == k + i * step
        }),
    decreases i,
{
    let (all, step) = (offsets_from(length, k), stride(length, 16));
    if i == 0 {
        assert(0 * step == 0);
        if k < length {
            assert(all[0] == k);
        }
    } else {
        let less = (i - 1) as nat;
        assert(i * step == less * step + step) by (nonlinear_arith)
            requires
                i == less + 1,
        ;
        assert(less * step >= 0) by (nonlinear_arith);
        if k < length {
            let rest = offsets_from(length, k + step);
            lemma_offsets_step(length, k + step, less);
            assert(all.len() == rest.len() + 1);
            if i < all.len() {
                assert(all[i as int] == rest[less as int]);
            }
        }
    }
}

/// A stripe is sampled at equal steps over the whole segment: a sixteenth of it, or one frame.
pub proof fn law_offsets_are_equally_spaced(length: nat, i: nat)
    ensures
        i < offsets(length).len() <==> i * stride(length, 16) < length,
        i < offsets(length).len() ==> offsets(length)[i as int] == i * stride(length, 16),
{
    lemma_offsets_step(length, 0, i);
}

/// The similarity of a segment that does not fit is averaged as over one position.
pub proof fn law_average_of_a_long_segment(num_frames: nat, length: nat)
    requires
        length > num_frames,
    ensures
        position_count(num_frames, length) == 1,
{
    vstd::arithmetic::div_mod::lemma_basic_div(0, stride(num_frames, 100) as int);
}

proof fn lemma_winner_counts(scores: Seq<Float64>)
    ensures
        best_index(scores) is Some ==> best_score(scores).above(
            Float64 { bits: 0xFFF0_0000_0000_0000 },
        ),
    decreases scores.len(),
{
    if scores.len() > 0 {
        let rest = scores.drop_last();
        lemma_winner_counts(rest);
        lemma_best(rest);
    }
}

/// There is a winner exactly where some score is a number above negative infinity; where there
/// is none, the recording is taken from its first frame, for the target length or whole.
pub proof fn law_no_score_takes_the_opening(
    num_frames: nat,
    min_len: nat,
    max_len: nat,
    target_len: nat,
    scores: Seq<Float64>,
)
    ensures
        ({
            let low = Float64 { bits: 0xFFF0_0000_0000_0000 };
            let w = winner(num_frames, min_len, max_len, target_len, scores);
            let none = forall|k: int| 0 <= k < scores.len() ==> !(#[trigger] scores[k]).above(low);
            &&& best_index(scores) is None <==> none
            &&& none ==> w.0 == 0 && w.1 <= target_len && w.1 <= num_frames && (w.1 == target_len
                || w.1 == num_frames)
            &&& !none ==> w == candidates(num_frames, min_len, max_len)[best_index(
                scores,
            )->Some_0]
        }),
{
    lemma_best(scores);
    lemma_winner_counts(scores);
    if best_index(scores) is Some {
        assert(scores[best_index(scores)->Some_0].above(Float64 { bits: 0xFFF0_0000_0000_0000 }));
    }
}

/// The confidence is the score itself where it lies between zero and one, one where it lies
/// above, and a tenth where it is not above zero.
pub proof fn law_confidence_is_the_score(score: Float64)
    ensures
        ({
            let (zero, one) = (Float64 { bits: 0 }, Float64 { bits: 0x3FF0_0000_0000_0000 });
            &&& score.above(zero) && one.at_least(score) ==> confidence_of(score) == score
            &&& score.above(zero) && score.above(one) ==> confidence_of(score) == one
            &&& !score.above(zero) ==> confidence_of(score) == (Float64 {
                bits: 0x3FB9_9999_9999_999A,
            })
        }),
{
}

/// Segments and numbers are seen as they are, one by one and in order.
pub proof fn law_segments_are_seen_as_they_are(s: Seq<Segment>, v: Seq<usize>, i: int)
    ensures
        segment_views(s).len() == s.len(),
        0 <= i < s.len() ==> segment_views(s)[i] == (s[i].start as nat, s[i].length as nat),
        numbers(v).len() == v.len(),
        0 <= i < v.len() ==> numbers(v)[i] == v[i],
{
}

} // verus!
