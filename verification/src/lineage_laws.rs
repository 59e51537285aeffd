//! What holds of stretches of audio and of the chunks that they become, in plain numbers.

use vstd::prelude::*;
use crate::chunk_writer::{
    chunks_filled, cut, delivered, downsampled, dropped_after, fill_chunks, filled, format_problem,
    frame_delivered, frame_outcome, frame_problem, frame_sent, frame_written, fresh_writer,
    gap_chunks, index_after, is_lost, is_steady, left_over, missing_stretch, next_index,
    phase_after, prepared, pushed, samples_of, silence, ChunkView, MicrophoneAudioChunkWriter,
    PolledFrame, SendOutcome, SentChunk, SourceRole, WriterView, CHUNK_SAMPLES, DOWNSAMPLE_RATIO,
    MINUTES_SAMPLE_RATE_HZ, POCKETSTATION_SAMPLE_RATE_HZ, SOURCE_FRAME_SAMPLES,
};
use crate::errors::CaptureError;
use crate::lineage::{
    end_of, frames_between, gap_problem, is_contiguous, is_plausible, is_same_source, merged,
    saturated, AudioChunkLineage,
};
use crate::text::decimal_of;

verus! {

/// Two stretches are of one source where seven marks agree, and only then.
pub proof fn one_source_has_one_identity(left: AudioChunkLineage, right: AudioChunkLineage)
    ensures
        left.session_id != right.session_id ==> !is_same_source(left, right),
        left.source_id != right.source_id ==> !is_same_source(left, right),
        left.stem_id != right.stem_id ==> !is_same_source(left, right),
        left.clock_id != right.clock_id ==> !is_same_source(left, right),
        left.source_generation != right.source_generation ==> !is_same_source(left, right),
        left.discontinuity_epoch != right.discontinuity_epoch ==> !is_same_source(left, right),
        left.permission_epoch != right.permission_epoch ==> !is_same_source(left, right),
        is_same_source(
            left,
            AudioChunkLineage {
                session_id: left.session_id,
                source_id: left.source_id,
                stem_id: left.stem_id,
                clock_id: left.clock_id,
                source_generation: left.source_generation,
                discontinuity_epoch: left.discontinuity_epoch,
                permission_epoch: left.permission_epoch,
                ..right
            },
        ),
{
}

/// A frame that comes `missing` frames after another one, `drift` nanoseconds from where its number
/// puts it, is taken in exactly where it drifts by no more than two milliseconds to either side, no
/// more than two hundred frames are missing, and it starts later. Where none is missing it follows
/// at once.
pub proof fn frames_may_drift_to_either_side(
    left: AudioChunkLineage,
    right: AudioChunkLineage,
    missing: int,
    drift: int,
)
    requires
        0 <= missing,
        right.first_sequence_number == left.last_sequence_number + 1 + missing,
        left.timestamp_start_ns + left.duration_ns + missing * 10_000_000 <= u64::MAX,
        right.timestamp_start_ns == left.timestamp_start_ns + left.duration_ns + missing
            * 10_000_000 + drift,
    ensures
        frames_between(left, right) == missing,
        is_plausible(left, right) == (-2_000_000 <= drift <= 2_000_000 && right.timestamp_start_ns
            > left.timestamp_start_ns),
        (gap_problem(left, right) is None) == (-2_000_000 <= drift <= 2_000_000 && missing <= 200
            && right.timestamp_start_ns > left.timestamp_start_ns),
        is_contiguous(left, right) == (missing == 0 && is_same_source(left, right) && -2_000_000
            <= drift <= 2_000_000 && right.timestamp_start_ns > left.timestamp_start_ns),
{
}

/// A frame that is numbered at or before the last one, or that does not start later, is refused.
pub proof fn frames_never_go_back(left: AudioChunkLineage, right: AudioChunkLineage)
    requires
        right.first_sequence_number < left.last_sequence_number || right.timestamp_start_ns
            <= left.timestamp_start_ns || (right.first_sequence_number
            == left.last_sequence_number && left.last_sequence_number < u64::MAX),
    ensures
        !is_plausible(left, right),
        !is_contiguous(left, right),
        gap_problem(left, right)
            == Some("source timestamps did not advance within the bounded repair window"@),
{
}

/// A gap that is too long is named by its length.
pub proof fn long_gaps_are_named(left: AudioChunkLineage, right: AudioChunkLineage, missing: int)
    requires
        missing > 200,
        missing * 10_000_000 <= u64::MAX,
        is_plausible(left, right),
        right.first_sequence_number == left.last_sequence_number + 1 + missing,
    ensures
        gap_problem(left, right) == Some(
            "source gap of "@ + decimal_of((missing * 10_000_000) as nat)
                + " ns exceeds the bounded "@ + decimal_of(2_000_000_000) + " ns repair window"@,
        ),
{
}

/// Joined stretches have the sum of what was missing and of what was put in, and last from the start
/// of the first to the end of the second; they were observed when the earlier one was and polled
/// when the later one was. A stretch that is joined to nothing is as it is.
pub proof fn joined_stretches_add_up(current: AudioChunkLineage, next: AudioChunkLineage)
    requires
        current.timestamp_start_ns <= next.timestamp_start_ns + next.duration_ns <= u64::MAX,
        current.missing_sequence_count + next.missing_sequence_count <= u64::MAX,
        current.inserted_silence_samples + next.inserted_silence_samples <= u64::MAX,
    ensures
        merged(None, next) == next,
        ({
            let whole = merged(Some(current), next);
            &&& whole.first_sequence_number == current.first_sequence_number
            &&& whole.last_sequence_number == next.last_sequence_number
            &&& whole.missing_sequence_count == current.missing_sequence_count
                + next.missing_sequence_count
            &&& whole.inserted_silence_samples == current.inserted_silence_samples
                + next.inserted_silence_samples
            &&& whole.timestamp_start_ns == current.timestamp_start_ns
            &&& whole.timestamp_start_ns + whole.duration_ns == next.timestamp_start_ns
                + next.duration_ns
            &&& whole.observed_at_ns <= current.observed_at_ns
            &&& whole.observed_at_ns <= next.observed_at_ns
            &&& whole.observed_at_ns == current.observed_at_ns || whole.observed_at_ns
                == next.observed_at_ns
            &&& whole.polled_at_ns >= current.polled_at_ns
            &&& whole.polled_at_ns >= next.polled_at_ns
            &&& whole.polled_at_ns == current.polled_at_ns || whole.polled_at_ns
                == next.polled_at_ns
            &&& is_same_source(whole, current)
        }),
{
}

/// A stretch ends its duration after its start, and no later than the last moment there is.
pub proof fn stretches_end_after_their_duration(stretch: AudioChunkLineage)
    ensures
        stretch.timestamp_start_ns + stretch.duration_ns <= u64::MAX ==> end_of(stretch)
            == stretch.timestamp_start_ns + stretch.duration_ns,
        stretch.timestamp_start_ns + stretch.duration_ns > u64::MAX ==> end_of(stretch)
            == u64::MAX,
{
}

/// A count stays what it is where it can be held, and is the nearest number that can be elsewhere.
pub proof fn counts_stop_at_their_bounds(n: int)
    ensures
        0 <= n <= u64::MAX ==> saturated(n) == n,
        n < 0 ==> saturated(n) == 0,
        n > u64::MAX ==> saturated(n) == u64::MAX,
{
}

/// Of a frame every third moment is kept: where the frame starts `phase` moments into three, those
/// at the distances of three from the first whose place among all moments is a multiple of three.
pub proof fn every_third_moment_is_kept(phase: int, mono: Seq<u32>)
    requires
        0 <= phase < 3,
    ensures
        ({
            let first = (3 - phase) % 3;
            let kept = downsampled(phase, mono);
            &&& forall|i: int|
                0 <= i < kept.len() ==> 3 * i + first < mono.len() && #[trigger] kept[i] == mono[3
                    * i + first]
            &&& 3 * kept.len() + first >= mono.len()
            &&& 0 <= phase_after(phase, mono) < 3
            &&& (phase + mono.len() - phase_after(phase, mono)) % 3 == 0
        }),
    decreases mono.len(),
{
    if mono.len() > 0 {
        let first = (3 - phase) % 3;
        let earlier = mono.drop_last();
        let before = downsampled(phase, earlier);
        let kept = downsampled(phase, mono);
        every_third_moment_is_kept(phase, earlier);
        if before.len() > 0 {
            assert(before[before.len() - 1] == earlier[3 * (before.len() - 1) + first]);
        }
        assert forall|i: int| 0 <= i < kept.len() implies 3 * i + first < mono.len()
            && #[trigger] kept[i] == mono[3 * i + first] by {
            if i < before.len() {
                assert(before[i] == earlier[3 * i + first]);
            }
        }
    }
}

/// Chunks hold 1600 samples of the voice, in their order; they are numbered on, and the first alone
/// has the lineage. What is left over fills no chunk.
pub proof fn chunks_are_tenths_of_a_second(
    buffer: Seq<u32>,
    index: u64,
    lineage: Option<AudioChunkLineage>,
)
    ensures
        ({
            let chunks = cut(buffer, index, lineage);
            &&& chunks.len() * 1600 + left_over(buffer).len() == buffer.len()
            &&& left_over(buffer).len() < 1600
            &&& left_over(buffer) == buffer.skip(chunks.len() as int * 1600)
            &&& forall|i: int|
                #![trigger chunks[i]]
                0 <= i < chunks.len() ==> {
                    &&& chunks[i].samples == buffer.subrange(1600 * i, 1600 * i + 1600)
                    &&& chunks[i].index == (index + i) % 0x1_0000_0000_0000_0000
                    &&& chunks[i].source == SourceRole::Voice
                    &&& chunks[i].lineage == if i == 0 {
                        lineage
                    } else {
                        None
                    }
                }
            &&& index_after(buffer, index) == (index + chunks.len()) % 0x1_0000_0000_0000_0000
        }),
    decreases buffer.len(),
{
    let chunks = cut(buffer, index, lineage);
    if buffer.len() < 1600 {
        assert(buffer.skip(0) =~= buffer);
    } else {
        let rest = buffer.skip(1600);
        let others = cut(rest, next_index(index), None);
        chunks_are_tenths_of_a_second(rest, next_index(index), None);
        let first = ChunkView {
            samples: buffer.take(1600),
            index,
            source: SourceRole::Voice,
            lineage,
        };
        assert(chunks =~= seq![first] + others);
        assert(rest.skip(others.len() as int * 1600) =~= buffer.skip(chunks.len() as int * 1600));
        assert forall|i: int|
            #![trigger chunks[i]]
            0 <= i < chunks.len() implies {
            &&& chunks[i].samples == buffer.subrange(1600 * i, 1600 * i + 1600)
            &&& chunks[i].index == (index + i) % 0x1_0000_0000_0000_0000
            &&& chunks[i].source == SourceRole::Voice
            &&& chunks[i].lineage == if i == 0 {
                lineage
            } else {
                None
            }
        } by {
            if i == 0 {
                assert(buffer.take(1600) =~= buffer.subrange(0, 1600));
            } else {
                assert(chunks[i] == others[i - 1]);
                assert(rest.subrange(1600 * (i - 1), 1600 * (i - 1) + 1600) =~= buffer.subrange(
                    1600 * i,
                    1600 * i + 1600,
                ));
            }
        }
    }
}

/// A frame is in the right format exactly where it is at 48 kHz, has a channel, and its samples
/// divide into its channels.
pub proof fn frames_are_canonical(sample_rate_hz: u32, channels: u16, sample_count: usize)
    ensures
        (format_problem(sample_rate_hz, channels, sample_count) is None) == (sample_rate_hz
            == 48_000 && channels > 0 && sample_count as int % channels as int == 0),
        sample_rate_hz != 48_000 ==> format_problem(sample_rate_hz, channels, sample_count) == Some(
            "expected "@ + decimal_of(48_000) + " Hz canonical audio, received "@ + decimal_of(
                sample_rate_hz as nat,
            ) + " Hz"@,
        ),
        sample_rate_hz == 48_000 && (channels == 0 || sample_count as int % channels as int != 0)
            ==> format_problem(sample_rate_hz, channels, sample_count)
            == Some("received an invalid channel layout"@),
{
}

/// Silence is zeros. What stands in for the frame that is missing `k` frames after another one lasts
/// ten milliseconds, starts where that one ends and `k` frames have passed, counts as one missing
/// frame of 160 silent samples, and is otherwise of the frame after the gap.
pub proof fn missing_frames_are_timed_silence(
    previous: AudioChunkLineage,
    frame: AudioChunkLineage,
    k: int,
    n: nat,
)
    requires
        0 <= k,
        previous.last_sequence_number + 1 + k <= u64::MAX,
        previous.timestamp_start_ns + previous.duration_ns + k * 10_000_000 <= u64::MAX,
    ensures
        silence(n).len() == n,
        forall|i: int| 0 <= i < n ==> #[trigger] silence(n)[i] == 0,
        missing_stretch(previous, frame, k) == (AudioChunkLineage {
            first_sequence_number: (previous.last_sequence_number + 1 + k) as u64,
            last_sequence_number: (previous.last_sequence_number + 1 + k) as u64,
            missing_sequence_count: 1,
            inserted_silence_samples: 160,
            timestamp_start_ns: (previous.timestamp_start_ns + previous.duration_ns + k
                * 10_000_000) as u64,
            duration_ns: 10_000_000,
            ..frame
        }),
{
}

/// A gap of `n` frames becomes 160 zeros for each of them, after what was gathered.
pub proof fn each_missing_frame_is_160_zeros(
    writer: WriterView,
    previous: AudioChunkLineage,
    frame: AudioChunkLineage,
    n: nat,
)
    ensures
        ({
            let whole = samples_of(fill_chunks(writer, previous, frame, n)) + filled(
                writer,
                previous,
                frame,
                n,
            ).buffer;
            &&& whole.len() == writer.buffer.len() + 160 * n
            &&& forall|i: int|
                0 <= i < writer.buffer.len() ==> #[trigger] whole[i] == writer.buffer[i]
            &&& forall|i: int|
                writer.buffer.len() <= i < whole.len() ==> #[trigger] whole[i] == 0
        }),
{
    crate::chunk_writer::gaps_become_exact_silence(writer, previous, frame, n);
}

/// Samples of a stretch are gathered behind those that were, and their lineage is joined to the one
/// that is pending: it goes with the first chunk or, where none is filled, stays pending.
pub proof fn lineage_goes_with_the_first_chunk(
    writer: WriterView,
    samples: Seq<u32>,
    lineage: AudioChunkLineage,
)
    ensures
        ({
            let after = pushed(writer, samples, lineage);
            let chunks = chunks_filled(writer, samples, lineage);
            let n = writer.buffer.len() + samples.len();
            &&& chunks.len() * 1600 + after.buffer.len() == n
            &&& after.buffer.len() < 1600
            &&& after.buffer == (writer.buffer + samples).skip(chunks.len() as int * 1600)
            &&& after.next == (writer.next + chunks.len()) % 0x1_0000_0000_0000_0000
            &&& after.phase == writer.phase
            &&& after.latest == writer.latest
            &&& n < 1600 ==> chunks.len() == 0 && (after.pending matches Some(pending)
                && pending.last_sequence_number == lineage.last_sequence_number
                && pending.first_sequence_number == match writer.pending {
                Some(earlier) => earlier.first_sequence_number,
                None => lineage.first_sequence_number,
            } && pending == merged(writer.pending, lineage))
            &&& n >= 1600 ==> {
                &&& after.pending is None
                &&& chunks[0].index == writer.next
                &&& chunks[0].lineage matches Some(whole) && whole.last_sequence_number
                    == lineage.last_sequence_number && whole.first_sequence_number
                    == match writer.pending {
                    Some(earlier) => earlier.first_sequence_number,
                    None => lineage.first_sequence_number,
                } && whole == merged(writer.pending, lineage)
                &&& forall|i: int| 0 < i < chunks.len() ==> (#[trigger] chunks[i]).lineage is None
            }
        }),
{
    let whole = writer.buffer + samples;
    chunks_are_tenths_of_a_second(whole, writer.next, Some(merged(writer.pending, lineage)));
}

/// A frame of another source than the last one is always taken in, and nothing of the earlier source
/// goes with it: its samples are gathered alone, its lineage is its own, and the chunks are numbered
/// on.
pub proof fn another_source_starts_over(
    writer: WriterView,
    samples: Seq<u32>,
    frame: AudioChunkLineage,
    previous: AudioChunkLineage,
)
    requires
        writer.latest == Some(previous),
        !is_same_source(previous, frame),
        samples.len() < 1600,
    ensures
        frame_problem(writer, frame) is None,
        gap_chunks(writer, frame).len() == 0,
        chunks_filled(prepared(writer, frame), samples, frame).len() == 0,
        frame_written(writer, samples, frame) == (WriterView {
            phase: 0,
            buffer: samples,
            next: writer.next,
            pending: Some(frame),
            latest: Some(frame),
        }),
{
    assert(Seq::<u32>::empty() + samples =~= samples);
}

/// The first frame, and one that follows at once, is taken in without a gap; one of the same source
/// that does not is taken in exactly where its gap can be filled.
pub proof fn frames_are_refused_by_their_gap_alone(
    writer: WriterView,
    samples: Seq<u32>,
    frame: AudioChunkLineage,
)
    ensures
        frame_written(writer, samples, frame).latest == Some(frame),
        writer.latest is None ==> {
            &&& frame_problem(writer, frame) is None
            &&& prepared(writer, frame) == writer
            &&& gap_chunks(writer, frame).len() == 0
        },
        writer.latest matches Some(previous) ==> is_contiguous(previous, frame) ==> {
            &&& frame_problem(writer, frame) is None
            &&& prepared(writer, frame) == writer
            &&& gap_chunks(writer, frame).len() == 0
        },
        writer.latest matches Some(previous) ==> is_same_source(previous, frame)
            && !is_contiguous(previous, frame) ==> {
            &&& frame_problem(writer, frame) == gap_problem(previous, frame)
            &&& gap_problem(previous, frame) is None ==> gap_chunks(writer, frame) == fill_chunks(
                writer,
                previous,
                frame,
                (frame.first_sequence_number - previous.last_sequence_number - 1) as nat,
            )
        },
{
    if let Some(previous) = writer.latest {
        if is_same_source(previous, frame) && !is_contiguous(previous, frame) && gap_problem(
            previous,
            frame,
        ) is None {
            if previous.last_sequence_number == u64::MAX {
                assert(frames_between(previous, frame) == 0);
                assert(frame.first_sequence_number == u64::MAX);
            }
        }
    }
}

/// A frame at another rate, without a channel, or whose samples do not divide into its channels
/// changes nothing and is an error. A frame that can be taken in is written, or the receiver is gone.
pub proof fn polled_frames_are_written_or_refused(
    before: WriterView,
    frame: PolledFrame,
    result: Result<(), CaptureError>,
    after: WriterView,
)
    requires
        frame_outcome(before, frame, result, after),
    ensures
        frame.sample_rate_hz != 48_000 || frame.channels == 0 || frame.sample_count as int
            % frame.channels as int != 0 ==> result is Err && after == before,
        result is Ok ==> {
            &&& frame.sample_rate_hz == 48_000
            &&& frame_problem(before, frame.lineage) is None
            &&& after.latest == Some(frame.lineage)
        },
        before.latest is None && result is Ok ==> {
            let kept = downsampled(before.phase, frame.mono@);
            &&& after.phase == phase_after(before.phase, frame.mono@)
            &&& before.buffer.len() + kept.len() < 1600 ==> after.buffer == before.buffer + kept
        },
{
}

/// A writer that starts over has gathered nothing and waits for nothing; the chunks are numbered on.
pub proof fn fresh_writers_hold_nothing(next: u64)
    ensures
        fresh_writer(next).buffer.len() == 0,
        fresh_writer(next).phase == 0,
        fresh_writer(next).next == next,
        fresh_writer(next).pending is None,
        fresh_writer(next).latest is None,
{
}

/// Chunk numbers go up by one, and start over after the last one. Only a full queue counts a chunk as
/// dropped, and counts it once.
pub proof fn only_full_queues_drop(index: u64, dropped: u64)
    ensures
        index < u64::MAX ==> next_index(index) == index + 1,
        next_index(u64::MAX) == 0,
        dropped_after(dropped, SendOutcome::Sent) == dropped,
        dropped_after(dropped, SendOutcome::Disconnected) == dropped,
        dropped < u64::MAX ==> dropped_after(dropped, SendOutcome::Full) == dropped + 1,
        dropped_after(u64::MAX, SendOutcome::Full) == 0,
{
}

/// What is recorded between two moments are the chunks themselves, in their order, after what was
/// recorded before.
pub proof fn records_hold_the_chunks_in_order(
    before: Seq<SentChunk>,
    chunks: Seq<ChunkView>,
    after: Seq<SentChunk>,
    dropped_before: u64,
    dropped: u64,
)
    requires
        delivered(before, chunks, after, dropped_before, dropped),
    ensures
        after.len() == before.len() + chunks.len(),
        forall|i: int| 0 <= i < before.len() ==> #[trigger] after[i] == before[i],
        forall|i: int|
            0 <= i < chunks.len() ==> (#[trigger] after[before.len() + i]).chunk == chunks[i],
        chunks.len() == 0 ==> dropped == dropped_before,
        chunks.len() == 1 ==> dropped == dropped_after(dropped_before, after.last().outcome),
{
    assert forall|i: int| 0 <= i < before.len() implies #[trigger] after[i] == before[i] by {
        assert(after.take(before.len() as int)[i] == before[i]);
    }
    let new = after.skip(before.len() as int);
    assert forall|i: int| 0 <= i < chunks.len() implies (#[trigger] after[before.len() + i]).chunk
        == chunks[i] by {
        assert(new[i].chunk == chunks[i]);
    }
    if chunks.len() == 1 {
        assert(new.drop_last().len() == 0);
        assert(new.last() == after.last());
        reveal_with_fuel(crate::chunk_writer::dropped_after_all, 2);
    }
}

/// The samples of chunks are those of the first, and then those of the rest.
pub proof fn samples_follow_chunk_by_chunk(chunk: ChunkView, chunks: Seq<ChunkView>)
    ensures
        samples_of(Seq::empty()).len() == 0,
        samples_of(seq![chunk] + chunks) == chunk.samples + samples_of(chunks),
{
    assert((seq![chunk] + chunks).drop_first() =~= chunks);
}

/// A record is lost where any of its chunks met a receiver that is gone.
pub proof fn one_lost_chunk_is_enough(sent: Seq<SentChunk>, next: SentChunk)
    ensures
        !is_lost(Seq::empty()),
        is_lost(sent.push(next)) == (is_lost(sent) || next.outcome == SendOutcome::Disconnected),
{
    let more = sent.push(next);
    assert(more[sent.len() as int] == next);
    if is_lost(sent) {
        let i = choose|i: int|
            0 <= i < sent.len() && (#[trigger] sent[i]).outcome == SendOutcome::Disconnected;
        assert(more[i] == sent[i]);
    }
    if is_lost(more) && next.outcome != SendOutcome::Disconnected {
        let i = choose|i: int|
            0 <= i < more.len() && (#[trigger] more[i]).outcome == SendOutcome::Disconnected;
        assert(sent[i] == more[i]);
    }
}

/// A frame that a gap refuses turns the phase on and changes nothing else; its error names the
/// timeline and the gap. A frame in a wrong format is an error of the reading.
pub proof fn refused_frames_only_turn_the_phase(
    before: WriterView,
    frame: PolledFrame,
    result: Result<(), CaptureError>,
    after: WriterView,
)
    requires
        frame_outcome(before, frame, result, after),
    ensures
        format_problem(frame.sample_rate_hz, frame.channels, frame.sample_count) matches Some(
            problem,
        ) ==> after == before && (result matches Err(CaptureError::Io(text)) && text@
            == "read PocketStation microphone"@ + ": "@ + problem),
        format_problem(frame.sample_rate_hz, frame.channels, frame.sample_count) is None ==> (
        frame_problem(before, frame.lineage) matches Some(problem) ==> after == (WriterView {
            phase: (before.phase + frame.mono@.len()) % 3,
            ..before
        }) && (result matches Err(CaptureError::Io(text)) && text@
            == "preserve PocketStation microphone timeline"@ + ": "@ + problem)),
        format_problem(frame.sample_rate_hz, frame.channels, frame.sample_count) is None
            && frame_problem(before, frame.lineage) is None && result is Err ==> (
        result matches Err(CaptureError::Io(text)) && text@ == "deliver PocketStation microphone"@
            + ": "@ + "Minutes stopped receiving microphone audio"@),
{
}

/// Of a frame that is written all chunks are recorded and none met a receiver that is gone; of any
/// other a part of them, from the first on, and one did.
pub proof fn frames_are_delivered_from_the_first_chunk_on(
    before: Seq<SentChunk>,
    chunks: Seq<ChunkView>,
    written: bool,
    after: Seq<SentChunk>,
    dropped_before: u64,
    dropped: u64,
)
    requires
        frame_delivered(before, chunks, written, after, dropped_before, dropped),
    ensures
        before.len() <= after.len() <= before.len() + chunks.len(),
        forall|i: int| 0 <= i < before.len() ==> #[trigger] after[i] == before[i],
        forall|i: int|
            0 <= i < after.len() - before.len() ==> (#[trigger] after[before.len() + i]).chunk
                == chunks[i],
        written ==> after.len() == before.len() + chunks.len(),
        written == !is_lost(after.skip(before.len() as int)),
{
    if written {
        records_hold_the_chunks_in_order(before, chunks, after, dropped_before, dropped);
    } else {
        let n = choose|n: int|
            0 <= n <= chunks.len() && delivered(
                before,
                #[trigger] chunks.take(n),
                after,
                dropped_before,
                dropped,
            );
        records_hold_the_chunks_in_order(before, chunks.take(n), after, dropped_before, dropped);
        assert forall|i: int| 0 <= i < after.len() - before.len() implies (
        #[trigger] after[before.len() + i]).chunk == chunks[i] by {
            assert(chunks.take(n)[i] == chunks[i]);
        }
    }
}

/// Nothing of a refused frame is recorded, and no chunk counts as dropped for it.
pub proof fn refused_frames_are_not_recorded(
    before: MicrophoneAudioChunkWriter,
    frame: PolledFrame,
    written: bool,
    after: MicrophoneAudioChunkWriter,
    dropped_before: u64,
    dropped: u64,
)
    requires
        frame_sent(before, frame, written, after, dropped_before, dropped),
        format_problem(frame.sample_rate_hz, frame.channels, frame.sample_count) is Some
            || frame_problem(before@, frame.lineage) is Some,
    ensures
        after.sent() == before.sent(),
        dropped == dropped_before,
{
}

/// Audio is taken at 48 kHz, every third sample of it is kept, and a chunk is a tenth of a second of
/// the 16 kHz that this gives.
pub proof fn rates_fit_together()
    ensures
        MINUTES_SAMPLE_RATE_HZ == 16_000,
        DOWNSAMPLE_RATIO == 3,
        POCKETSTATION_SAMPLE_RATE_HZ == MINUTES_SAMPLE_RATE_HZ * DOWNSAMPLE_RATIO,
        CHUNK_SAMPLES * 10 == MINUTES_SAMPLE_RATE_HZ,
        SOURCE_FRAME_SAMPLES * 100 == MINUTES_SAMPLE_RATE_HZ,
{
}

/// A writer between two frames has gathered less than a chunk, and is within three samples.
pub proof fn writers_hold_less_than_a_chunk(writer: WriterView)
    requires
        is_steady(writer),
    ensures
        0 <= writer.phase < 3,
        writer.buffer.len() < 1600,
{
}

/// A gap is filled frame by frame: each missing frame is 160 silent samples with the lineage of its
/// own place in the gap, behind those of the frames before it.
pub proof fn gaps_are_filled_frame_by_frame(
    writer: WriterView,
    previous: AudioChunkLineage,
    frame: AudioChunkLineage,
    n: nat,
)
    ensures
        filled(writer, previous, frame, 0) == writer,
        filled(writer, previous, frame, n + 1) == pushed(
            filled(writer, previous, frame, n),
            silence(160),
            missing_stretch(previous, frame, n as int),
        ),
        fill_chunks(writer, previous, frame, 0).len() == 0,
        fill_chunks(writer, previous, frame, n + 1) == fill_chunks(writer, previous, frame, n)
            + chunks_filled(
            filled(writer, previous, frame, n),
            silence(160),
            missing_stretch(previous, frame, n as int),
        ),
{
}

} // verus!
