//! Where a stretch of microphone audio comes from, and how stretches follow each other.

use vstd::prelude::*;
use crate::errors::{capture_error, is_capture_error, CaptureError};
use crate::text::{decimal_of, decimal_text};

verus! {

/// How long one frame of the source lasts.
pub const SOURCE_FRAME_DURATION_NS: u64 = 10_000_000;

/// The longest gap that is filled with silence.
pub const MAX_SEQUENCE_GAP_NS: u64 = 2_000_000_000;

/// How far a timestamp may be from where the sequence puts it.
pub const MAX_TIMESTAMP_JITTER_NS: u64 = 2_000_000;

/// Where a stretch of audio comes from.
#[derive(Debug, Clone, Copy, PartialEq, Eq, Structural)]
pub struct AudioChunkLineage {
    pub session_id: u64,
    pub source_id: u64,
    pub stem_id: u64,
    pub clock_id: u32,
    pub first_sequence_number: u64,
    pub last_sequence_number: u64,
    pub missing_sequence_count: u64,
    pub inserted_silence_samples: u64,
    pub timestamp_start_ns: u64,
    pub duration_ns: u64,
    pub source_generation: u32,
    pub discontinuity_epoch: u64,
    pub permission_epoch: u64,
    pub observed_at_ns: u64,
    pub polled_at_ns: u64,
}

/// The nearest number that a counter can hold.
pub open spec fn saturated(n: int) -> u64 {
    if n > u64::MAX {
        u64::MAX
    } else if n < 0 {
        0
    } else {
        n as u64
    }
}

/// When a stretch ends.
pub open spec fn end_of(lineage: AudioChunkLineage) -> u64 {
    saturated(lineage.timestamp_start_ns + lineage.duration_ns)
}

/// The sequence number after a stretch.
pub open spec fn next_sequence(lineage: AudioChunkLineage) -> u64 {
    saturated(lineage.last_sequence_number + 1)
}

impl AudioChunkLineage {
    /// When this stretch ends.
    pub fn timestamp_end_ns(&self) -> (end: u64)
        ensures
            end == end_of(*self),
    {
        self.timestamp_start_ns.saturating_add(self.duration_ns)
    }
}

/// Whether two stretches are of one physical source, without a break between them.
pub open spec fn is_same_source(left: AudioChunkLineage, right: AudioChunkLineage) -> bool {
    &&& left.session_id == right.session_id
    &&& left.source_id == right.source_id
    &&& left.stem_id == right.stem_id
    &&& left.clock_id == right.clock_id
    &&& left.source_generation == right.source_generation
    &&& left.discontinuity_epoch == right.discontinuity_epoch
    &&& left.permission_epoch == right.permission_epoch
}

/// How many frames lie between two stretches; negative where they overlap.
pub open spec fn frames_between(left: AudioChunkLineage, right: AudioChunkLineage) -> int {
    right.first_sequence_number - next_sequence(left)
}

/// When `right` should start, with the frames between accounted for.
pub open spec fn expected_start(left: AudioChunkLineage, right: AudioChunkLineage) -> u64 {
    saturated(
        end_of(left) + saturated(frames_between(left, right) * SOURCE_FRAME_DURATION_NS),
    )
}

/// Whether `right` starts after `left` does, and about where its sequence number puts it.
pub open spec fn is_plausible(left: AudioChunkLineage, right: AudioChunkLineage) -> bool {
    &&& right.timestamp_start_ns > left.timestamp_start_ns
    &&& frames_between(left, right) >= 0
    &&& -MAX_TIMESTAMP_JITTER_NS <= right.timestamp_start_ns - expected_start(left, right)
        <= MAX_TIMESTAMP_JITTER_NS
}

/// Whether `right` follows `left` at once.
pub open spec fn is_contiguous(left: AudioChunkLineage, right: AudioChunkLineage) -> bool {
    &&& is_same_source(left, right)
    &&& right.first_sequence_number == next_sequence(left)
    &&& is_plausible(left, right)
}

/// Whether two stretches are of one physical source, without a break between them.
pub fn same_source_interval(left: AudioChunkLineage, right: AudioChunkLineage) -> (same: bool)
    ensures
        same == is_same_source(left, right),
{
    left.session_id == right.session_id && left.source_id == right.source_id && left.stem_id
        == right.stem_id && left.clock_id == right.clock_id && left.source_generation
        == right.source_generation && left.discontinuity_epoch == right.discontinuity_epoch
        && left.permission_epoch == right.permission_epoch
}

/// Whether `right` follows `left` at once.
pub fn contiguous_source_interval(left: AudioChunkLineage, right: AudioChunkLineage) -> (follows:
    bool)
    ensures
        follows == is_contiguous(left, right),
{
    same_source_interval(left, right) && right.first_sequence_number
        == left.last_sequence_number.saturating_add(1) && source_timestamps_plausible(left, right)
}

fn times_frame_duration(frames: u64) -> (ns: u64)
    ensures
        ns == saturated(frames * SOURCE_FRAME_DURATION_NS),
{
    let exact: u128 = (frames as u128) * 10_000_000u128;
    if exact > u64::MAX as u128 {
        u64::MAX
    } else {
        exact as u64
    }
}

/// Whether `right` starts after `left` does, and about where its sequence number puts it.
pub fn source_timestamps_plausible(left: AudioChunkLineage, right: AudioChunkLineage) -> (yes: bool)
    ensures
        yes == is_plausible(left, right),
{
    if right.timestamp_start_ns <= left.timestamp_start_ns {
        return false;
    }
    let next: u64 = left.last_sequence_number.saturating_add(1);
    if right.first_sequence_number < next {
        return false;
    }
    let missing: u64 = right.first_sequence_number - next;
    let expected: u64 = left.timestamp_end_ns().saturating_add(times_frame_duration(missing));
    let apart: u64 = if right.timestamp_start_ns > expected {
        right.timestamp_start_ns - expected
    } else {
        expected - right.timestamp_start_ns
    };
    apart <= MAX_TIMESTAMP_JITTER_NS
}

/// What went wrong where a gap cannot be filled.
pub open spec fn gap_problem(left: AudioChunkLineage, right: AudioChunkLineage) -> Option<
    Seq<char>,
> {
    let gap = saturated(frames_between(left, right) * SOURCE_FRAME_DURATION_NS);
    if !is_plausible(left, right) {
        Some("source timestamps did not advance within the bounded repair window"@)
    } else if gap > MAX_SEQUENCE_GAP_NS {
        Some(
            "source gap of "@ + decimal_of(gap as nat) + " ns exceeds the bounded "@ + decimal_of(
                MAX_SEQUENCE_GAP_NS as nat,
            ) + " ns repair window"@,
        )
    } else {
        None
    }
}

/// How many frames are missing between two stretches. A gap that is too long, or that the
/// timestamps do not bear out, is refused.
pub fn missing_source_frames(left: AudioChunkLineage, right: AudioChunkLineage) -> (result: Result<
    u64,
    CaptureError,
>)
    ensures
        match gap_problem(left, right) {
            None => result matches Ok(frames) && frames == frames_between(left, right),
            Some(problem) => result matches Err(error) && is_capture_error(
                error,
                "preserve PocketStation microphone timeline"@,
                problem,
            ),
        },
{
    if !source_timestamps_plausible(left, right) {
        return Err(
            capture_error(
                "preserve PocketStation microphone timeline",
                "source timestamps did not advance within the bounded repair window",
            ),
        );
    }
    let missing: u64 = right.first_sequence_number - left.last_sequence_number.saturating_add(1);
    let gap: u64 = times_frame_duration(missing);
    if gap > MAX_SEQUENCE_GAP_NS {
        let mut problem = "source gap of ".to_owned();
        problem.append(decimal_text(gap).as_str());
        problem.append(" ns exceeds the bounded ");
        problem.append(decimal_text(MAX_SEQUENCE_GAP_NS).as_str());
        problem.append(" ns repair window");
        return Err(
            capture_error("preserve PocketStation microphone timeline", problem.as_str()),
        );
    }
    Ok(missing)
}

/// The stretch that spans `current` and `next`.
pub open spec fn merged(
    current: Option<AudioChunkLineage>,
    next: AudioChunkLineage,
) -> AudioChunkLineage {
    match current {
        None => next,
        Some(current) => AudioChunkLineage {
            last_sequence_number: next.last_sequence_number,
            missing_sequence_count: saturated(
                current.missing_sequence_count + next.missing_sequence_count,
            ),
            inserted_silence_samples: saturated(
                current.inserted_silence_samples + next.inserted_silence_samples,
            ),
            duration_ns: saturated(end_of(next) - current.timestamp_start_ns),
            observed_at_ns: if current.observed_at_ns <= next.observed_at_ns {
                current.observed_at_ns
            } else {
                next.observed_at_ns
            },
            polled_at_ns: if current.polled_at_ns >= next.polled_at_ns {
                current.polled_at_ns
            } else {
                next.polled_at_ns
            },
            ..current
        },
    }
}

/// Joins a stretch to those before it. Stretches of different sources are never joined.
pub fn merge_source_interval(current: Option<AudioChunkLineage>, next: AudioChunkLineage) -> (whole:
    AudioChunkLineage)
    requires
        current matches Some(current) ==> is_same_source(current, next),
    ensures
        whole == merged(current, next),
{
    match current {
        None => next,
        Some(current) => {
            let observed_at_ns: u64 = if current.observed_at_ns <= next.observed_at_ns {
                current.observed_at_ns
            } else {
                next.observed_at_ns
            };
            let polled_at_ns: u64 = if current.polled_at_ns >= next.polled_at_ns {
                current.polled_at_ns
            } else {
                next.polled_at_ns
            };
            AudioChunkLineage {
                last_sequence_number: next.last_sequence_number,
                missing_sequence_count: current.missing_sequence_count.saturating_add(
                    next.missing_sequence_count,
                ),
                inserted_silence_samples: current.inserted_silence_samples.saturating_add(
                    next.inserted_silence_samples,
                ),
                duration_ns: next.timestamp_end_ns().saturating_sub(current.timestamp_start_ns),
                observed_at_ns,
                polled_at_ns,
                ..current
            }
        },
    }
}

/// A merged stretch starts where its first part does, ends where its last part does, and is of
/// their source.
pub proof fn merging_preserves_bounds(current: AudioChunkLineage, next: AudioChunkLineage)
    requires
        is_same_source(current, next),
        current.timestamp_start_ns <= end_of(next),
    ensures
        ({
            let whole = merged(Some(current), next);
            &&& is_same_source(whole, current)
            &&& is_same_source(whole, next)
            &&& whole.first_sequence_number == current.first_sequence_number
            &&& whole.last_sequence_number == next.last_sequence_number
            &&& whole.timestamp_start_ns == current.timestamp_start_ns
            &&& end_of(whole) == end_of(next)
            &&& whole.observed_at_ns <= current.observed_at_ns
            &&& whole.observed_at_ns <= next.observed_at_ns
            &&& whole.polled_at_ns >= current.polled_at_ns
            &&& whole.polled_at_ns >= next.polled_at_ns
        }),
{
}

/// Stretches of different generations never follow each other, and neither do those with frames
/// missing between them.
pub proof fn contiguous_stretches_miss_nothing(left: AudioChunkLineage, right: AudioChunkLineage)
    requires
        is_contiguous(left, right),
    ensures
        left.source_generation == right.source_generation,
        left.discontinuity_epoch == right.discontinuity_epoch,
        frames_between(left, right) == 0,
        gap_problem(left, right) is None,
{
}

/// A gap that can be filled is no longer than the longest one, and so is bounded in frames.
pub proof fn filled_gaps_are_bounded(left: AudioChunkLineage, right: AudioChunkLineage)
    requires
        gap_problem(left, right) is None,
    ensures
        0 <= frames_between(left, right) <= 200,
        right.timestamp_start_ns > left.timestamp_start_ns,
{
}

} // verus!
