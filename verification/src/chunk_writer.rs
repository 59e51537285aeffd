//! Turning microphone frames into chunks. A sample is the bit pattern of its 32-bit float.

use vstd::prelude::*;
use crate::errors::{capture_error, is_capture_error, CaptureError};
use crate::lineage::{
    contiguous_source_interval, end_of, filled_gaps_are_bounded, frames_between, gap_problem,
    is_contiguous, is_same_source, merge_source_interval, merged, missing_source_frames,
    same_source_interval, saturated, AudioChunkLineage, SOURCE_FRAME_DURATION_NS,
};
use crate::text::{decimal_of, decimal_text, joined};
use crate::timing::time_now;

verus! {

/// The sample rate of the frames that are delivered.
pub const POCKETSTATION_SAMPLE_RATE_HZ: u32 = 48_000;

/// The sample rate of the chunks that are written.
pub const MINUTES_SAMPLE_RATE_HZ: u32 = 16_000;

/// How many samples of a frame give one sample of a chunk.
pub const DOWNSAMPLE_RATIO: usize = 3;

/// How many samples one frame gives.
pub const SOURCE_FRAME_SAMPLES: usize = 160;

/// How many samples one chunk holds.
pub const CHUNK_SAMPLES: usize = 1600;

/// Whose audio a chunk holds.
#[derive(Debug, Clone, Copy, PartialEq, Eq, Structural)]
pub enum SourceRole {
    Voice,
    System,
}

/// A tenth of a second of audio.
pub struct AudioChunk {
    pub samples: Vec<u32>,
    pub timestamp: std::time::Instant,
    pub index: u64,
    pub source: SourceRole,
    pub lineage: Option<AudioChunkLineage>,
}

/// What an [`AudioChunk`] holds, but for when it was made.
pub struct ChunkView {
    pub samples: Seq<u32>,
    pub index: u64,
    pub source: SourceRole,
    pub lineage: Option<AudioChunkLineage>,
}

impl View for AudioChunk {
    type V = ChunkView;

    open spec fn view(&self) -> ChunkView {
        ChunkView {
            samples: self.samples@,
            index: self.index,
            source: self.source,
            lineage: self.lineage,
        }
    }
}

/// What a list of chunks holds.
pub open spec fn chunks_view(chunks: Seq<AudioChunk>) -> Seq<ChunkView> {
    Seq::new(chunks.len(), |i: int| chunks[i]@)
}

/// The index after `index`; the last one is followed by the first.
pub open spec fn next_index(index: u64) -> u64 {
    if index == u64::MAX {
        0
    } else {
        (index + 1) as u64
    }
}

/// The chunks that a buffer gives. The first takes the lineage.
pub open spec fn cut(
    buffer: Seq<u32>,
    index: u64,
    lineage: Option<AudioChunkLineage>,
) -> Seq<ChunkView>
    decreases buffer.len(),
{
    if buffer.len() < CHUNK_SAMPLES {
        Seq::empty()
    } else {
        seq![
            ChunkView {
                samples: buffer.take(CHUNK_SAMPLES as int),
                index,
                source: SourceRole::Voice,
                lineage,
            },
        ] + cut(buffer.skip(CHUNK_SAMPLES as int), next_index(index), None)
    }
}

/// What a buffer keeps after its chunks are cut.
pub open spec fn left_over(buffer: Seq<u32>) -> Seq<u32>
    decreases buffer.len(),
{
    if buffer.len() < CHUNK_SAMPLES {
        buffer
    } else {
        left_over(buffer.skip(CHUNK_SAMPLES as int))
    }
}

/// The index after those of the chunks that a buffer gives.
pub open spec fn index_after(buffer: Seq<u32>, index: u64) -> u64
    decreases buffer.len(),
{
    if buffer.len() < CHUNK_SAMPLES {
        index
    } else {
        index_after(buffer.skip(CHUNK_SAMPLES as int), next_index(index))
    }
}

/// The samples of a list of chunks, one chunk after the other.
pub open spec fn samples_of(chunks: Seq<ChunkView>) -> Seq<u32>
    decreases chunks.len(),
{
    if chunks.len() == 0 {
        Seq::empty()
    } else {
        chunks[0].samples + samples_of(chunks.drop_first())
    }
}

/// Cutting loses no sample and changes no order: the chunks and what is left over are the buffer.
/// Each chunk is full, and what is left over fills none.
pub proof fn cutting_loses_nothing(
    buffer: Seq<u32>,
    index: u64,
    lineage: Option<AudioChunkLineage>,
)
    ensures
        samples_of(cut(buffer, index, lineage)) + left_over(buffer) == buffer,
        left_over(buffer).len() < CHUNK_SAMPLES,
        forall|i: int|
            0 <= i < cut(buffer, index, lineage).len() ==> (#[trigger] cut(
                buffer,
                index,
                lineage,
            )[i]).samples.len() == CHUNK_SAMPLES,
    decreases buffer.len(),
{
    if buffer.len() < CHUNK_SAMPLES {
        assert(samples_of(cut(buffer, index, lineage)) + buffer =~= buffer);
    } else {
        let rest = buffer.skip(CHUNK_SAMPLES as int);
        let first = buffer.take(CHUNK_SAMPLES as int);
        let chunks = cut(buffer, index, lineage);
        let others = cut(rest, next_index(index), None);
        cutting_loses_nothing(rest, next_index(index), None);
        assert(chunks.drop_first() =~= others);
        assert(samples_of(chunks) == first + samples_of(others));
        assert(samples_of(chunks) + left_over(buffer) =~= first + (samples_of(others) + left_over(
            rest,
        )));
        assert(first + rest =~= buffer);
        assert forall|i: int| 0 <= i < chunks.len() implies (#[trigger] chunks[i]).samples.len()
            == CHUNK_SAMPLES by {
            if i > 0 {
                assert(chunks[i] == others[i - 1]);
            }
        }
    }
}

/// Gathers samples until they fill a chunk.
pub struct ChunkAccumulator {
    pub buffer: Vec<u32>,
    pub next: u64,
}

impl Default for ChunkAccumulator {
    /// Nothing gathered; the first chunk is chunk zero.
    fn default() -> (chunks: Self)
        ensures
            chunks.buffer@.len() == 0,
            chunks.next == 0,
    {
        ChunkAccumulator { buffer: Vec::new(), next: 0 }
    }
}

fn append_samples(buffer: &mut Vec<u32>, samples: &Vec<u32>)
    ensures
        final(buffer)@ == old(buffer)@ + samples@,
{
    let ghost before = buffer@;
    let mut i: usize = 0;
    assert(before + samples@.take(0) =~= before);
    while i < samples.len()
        invariant
            i <= samples@.len(),
            buffer@ == before + samples@.take(i as int),
            before == old(buffer)@,
        decreases samples@.len() - i,
    {
        buffer.push(samples[i]);
        i = i + 1;
        assert(before + samples@.take(i as int) =~= (before + samples@.take(i - 1)).push(
            samples@[i - 1],
        ));
    }
    assert(samples@.take(i as int) =~= samples@);
}

impl ChunkAccumulator {
    /// Forgets what was gathered. The chunks are numbered on.
    pub fn clear(&mut self)
        ensures
            final(self).buffer@.len() == 0,
            final(self).next == old(self).next,
    {
        self.buffer.clear();
    }

    /// Takes in samples and gives the chunks that they fill. The first takes the lineage.
    pub fn push(&mut self, samples: &Vec<u32>, lineage: &mut Option<AudioChunkLineage>) -> (chunks:
        Vec<AudioChunk>)
        ensures
            ({
                let whole = old(self).buffer@ + samples@;
                &&& chunks_view(chunks@) == cut(whole, old(self).next, *old(lineage))
                &&& final(self).buffer@ == left_over(whole)
                &&& final(self).next == index_after(whole, old(self).next)
                &&& *final(lineage) == if whole.len() < CHUNK_SAMPLES {
                    *old(lineage)
                } else {
                    None
                }
            }),
    {
        append_samples(&mut self.buffer, samples);
        let ghost whole = self.buffer@;
        let ghost index = self.next;
        let ghost given = *lineage;
        let mut chunks: Vec<AudioChunk> = Vec::new();
        assert(chunks_view(chunks@) + cut(whole, index, given) =~= cut(whole, index, given));
        while self.buffer.len() >= CHUNK_SAMPLES
            invariant
                whole == old(self).buffer@ + samples@,
                index == old(self).next,
                given == *old(lineage),
                cut(whole, index, given) == chunks_view(chunks@) + cut(
                    self.buffer@,
                    self.next,
                    *lineage,
                ),
                left_over(whole) == left_over(self.buffer@),
                index_after(whole, index) == index_after(self.buffer@, self.next),
                chunks@.len() == 0 ==> self.buffer@ == whole && *lineage == given,
                chunks@.len() > 0 ==> whole.len() >= CHUNK_SAMPLES && *lineage is None,
            decreases self.buffer@.len(),
        {
            let ghost before = self.buffer@;
            let ghost cut_before = chunks_view(chunks@);
            let ghost at = self.next;
            let ghost taken = *lineage;
            let rest = self.buffer.split_off(CHUNK_SAMPLES);
            assert(self.buffer@ =~= before.take(CHUNK_SAMPLES as int));
            assert(rest@ =~= before.skip(CHUNK_SAMPLES as int));
            let mut filled = rest;
            std::mem::swap(&mut self.buffer, &mut filled);
            let chunk = AudioChunk {
                samples: filled,
                timestamp: time_now(),
                index: self.next,
                source: SourceRole::Voice,
                lineage: *lineage,
            };
            *lineage = None;
            self.next = self.next.wrapping_add(1);
            let ghost first = chunk@;
            chunks.push(chunk);
            proof {
                assert(chunks_view(chunks@) =~= cut_before.push(first));
                assert(cut(before, at, taken) == seq![first] + cut(self.buffer@, self.next, None));
                assert(cut_before + (seq![first] + cut(self.buffer@, self.next, None))
                    =~= cut_before.push(first) + cut(self.buffer@, self.next, None));
            }
        }
        assert(chunks_view(chunks@) + cut(self.buffer@, self.next, *lineage) =~= chunks_view(
            chunks@,
        ));
        chunks
    }
}

/// Declares `crossbeam_channel::Sender`.
#[verifier::external_type_specification]
#[verifier::external_body]
#[verifier::reject_recursive_types(T)]
pub struct ExSender<T>(crossbeam_channel::Sender<T>);

/// What became of a chunk that was sent without waiting.
#[derive(Debug, Clone, Copy, PartialEq, Eq, Structural)]
pub enum SendOutcome {
    Sent,
    Full,
    Disconnected,
}

/// `Sender::try_send`, which never waits. Which outcome comes is left unsaid: it rests on what the
/// receiver has taken so far.
#[verifier::external_body]
fn try_send(sink: &crossbeam_channel::Sender<AudioChunk>, chunk: AudioChunk) -> SendOutcome {
    match sink.try_send(chunk) {
        Ok(()) => SendOutcome::Sent,
        Err(crossbeam_channel::TrySendError::Full(_)) => SendOutcome::Full,
        Err(crossbeam_channel::TrySendError::Disconnected(_)) => SendOutcome::Disconnected,
    }
}

/// How many chunks were dropped, after one more was sent: a full queue drops it. The count wraps.
pub open spec fn dropped_after(dropped: u64, outcome: SendOutcome) -> u64 {
    if outcome == SendOutcome::Full {
        next_index(dropped)
    } else {
        dropped
    }
}

/// Counts a chunk that a full queue dropped. Only a receiver that is gone is an error.
pub fn note_delivery(outcome: SendOutcome, dropped_chunks_total: &mut u64) -> (result: Result<
    (),
    (),
>)
    ensures
        *final(dropped_chunks_total) == dropped_after(*old(dropped_chunks_total), outcome),
        result is Err == (outcome == SendOutcome::Disconnected),
{
    match outcome {
        SendOutcome::Sent => Ok(()),
        SendOutcome::Full => {
            *dropped_chunks_total = dropped_chunks_total.wrapping_add(1);
            Ok(())
        },
        SendOutcome::Disconnected => Err(()),
    }
}

/// Sends a chunk without waiting: a full queue drops it.
pub fn deliver_chunk(
    sink: &crossbeam_channel::Sender<AudioChunk>,
    chunk: AudioChunk,
    dropped_chunks_total: &mut u64,
) -> (result: Result<(), ()>)
    ensures
        exists|outcome: SendOutcome| #[trigger]
            dropped_after(*old(dropped_chunks_total), outcome) == *final(dropped_chunks_total)
                && (result is Err == (outcome == SendOutcome::Disconnected)),
{
    let outcome = try_send(sink, chunk);
    note_delivery(outcome, dropped_chunks_total)
}

/// A chunk as a writer's record has it, with the outcome by which its delivery was counted.
pub struct SentChunk {
    pub chunk: ChunkView,
    pub outcome: SendOutcome,
}

/// Whether `sent` is each of `chunks`, in their order.
pub open spec fn is_record_of(sent: Seq<SentChunk>, chunks: Seq<ChunkView>) -> bool {
    &&& sent.len() == chunks.len()
    &&& forall|i: int| 0 <= i < sent.len() ==> (#[trigger] sent[i]).chunk == chunks[i]
}

/// Whether one of the chunks met a receiver that is gone.
pub open spec fn is_lost(sent: Seq<SentChunk>) -> bool {
    exists|i: int|
        0 <= i < sent.len() && (#[trigger] sent[i]).outcome == SendOutcome::Disconnected
}

/// How many chunks were dropped, after all that a record has.
pub open spec fn dropped_after_all(dropped: u64, sent: Seq<SentChunk>) -> u64
    decreases sent.len(),
{
    if sent.len() == 0 {
        dropped
    } else {
        dropped_after(dropped_after_all(dropped, sent.drop_last()), sent.last().outcome)
    }
}

/// What a record has after `before`.
pub open spec fn sent_since(before: Seq<SentChunk>, after: Seq<SentChunk>) -> Seq<SentChunk> {
    after.skip(before.len() as int)
}

/// Whether each of `chunks`, and nothing else, was recorded as handed over between `before` and
/// `after`, with outcomes that fit the count of those that a full queue dropped.
pub open spec fn delivered(
    before: Seq<SentChunk>,
    chunks: Seq<ChunkView>,
    after: Seq<SentChunk>,
    dropped_before: u64,
    dropped: u64,
) -> bool {
    &&& before.len() <= after.len()
    &&& after.take(before.len() as int) == before
    &&& is_record_of(sent_since(before, after), chunks)
    &&& dropped == dropped_after_all(dropped_before, sent_since(before, after))
}

proof fn drops_add_up(dropped: u64, first: Seq<SentChunk>, second: Seq<SentChunk>)
    ensures
        dropped_after_all(dropped, first + second) == dropped_after_all(
            dropped_after_all(dropped, first),
            second,
        ),
    decreases second.len(),
{
    if second.len() == 0 {
        assert(first + second =~= first);
    } else {
        assert((first + second).drop_last() =~= first + second.drop_last());
        drops_add_up(dropped, first, second.drop_last());
    }
}

proof fn delivery_goes_on(
    start: Seq<SentChunk>,
    first: Seq<ChunkView>,
    middle: Seq<SentChunk>,
    second: Seq<ChunkView>,
    end: Seq<SentChunk>,
    dropped_at_start: u64,
    dropped_between: u64,
    dropped: u64,
)
    requires
        delivered(start, first, middle, dropped_at_start, dropped_between),
        delivered(middle, second, end, dropped_between, dropped),
    ensures
        delivered(start, first + second, end, dropped_at_start, dropped),
        is_lost(sent_since(start, end)) == (is_lost(sent_since(start, middle)) || is_lost(
            sent_since(middle, end),
        )),
{
    let a = sent_since(start, middle);
    let b = sent_since(middle, end);
    let whole = sent_since(start, end);
    assert(whole =~= a + b) by {
        assert forall|i: int| 0 <= i < whole.len() implies #[trigger] whole[i] == (a + b)[i] by {
            if i < a.len() {
                assert(end.take(middle.len() as int)[start.len() + i] == middle[start.len() + i]);
            }
        }
    }
    assert(end.take(start.len() as int) =~= start) by {
        assert forall|i: int| 0 <= i < start.len() implies #[trigger] end[i] == start[i] by {
            assert(end.take(middle.len() as int)[i] == middle[i]);
            assert(middle.take(start.len() as int)[i] == start[i]);
        }
    }
    drops_add_up(dropped_at_start, a, b);
    if is_lost(a) {
        let i = choose|i: int|
            0 <= i < a.len() && (#[trigger] a[i]).outcome == SendOutcome::Disconnected;
        assert(whole[i] == a[i]);
    }
    if is_lost(b) {
        let i = choose|i: int|
            0 <= i < b.len() && (#[trigger] b[i]).outcome == SendOutcome::Disconnected;
        assert(whole[a.len() + i] == b[i]);
    }
    if is_lost(whole) {
        let i = choose|i: int|
            0 <= i < whole.len() && (#[trigger] whole[i]).outcome == SendOutcome::Disconnected;
        if i < a.len() {
            assert(a[i] == whole[i]);
        } else {
            assert(b[i - a.len()] == whole[i]);
        }
    }
}

/// Hands chunks over in their order, each without waiting; `false` says that the receiver is gone.
/// Each is recorded with an outcome that fits the count and that answer.
fn deliver_all(
    sink: &crossbeam_channel::Sender<AudioChunk>,
    chunks: Vec<AudioChunk>,
    dropped_chunks_total: &mut u64,
) -> (delivery: (bool, Ghost<Seq<SentChunk>>))
    ensures
        is_record_of(delivery.1@, chunks_view(chunks@)),
        *final(dropped_chunks_total) == dropped_after_all(
            *old(dropped_chunks_total),
            delivery.1@,
        ),
        delivery.0 == !is_lost(delivery.1@),
{
    let mut connected = true;
    let mut sent: Ghost<Seq<SentChunk>> = Ghost(Seq::empty());
    let ghost all = chunks@;
    for chunk in it: chunks
        invariant
            it.seq() == all,
            all == chunks@,
            sent@.len() == it.index(),
            forall|i: int| 0 <= i < sent@.len() ==> (#[trigger] sent@[i]).chunk == all[i]@,
            *dropped_chunks_total == dropped_after_all(*old(dropped_chunks_total), sent@),
            connected == !is_lost(sent@),
    {
        let ghost view = chunk@;
        let ghost before = *dropped_chunks_total;
        let ghost earlier = sent@;
        let result = deliver_chunk(sink, chunk, dropped_chunks_total);
        let ghost outcome = choose|outcome: SendOutcome| #[trigger]
            dropped_after(before, outcome) == *dropped_chunks_total && (result is Err == (outcome
                == SendOutcome::Disconnected));
        proof {
            sent@ = earlier.push(SentChunk { chunk: view, outcome });
            assert(sent@.drop_last() =~= earlier);
            if is_lost(earlier) {
                let i = choose|i: int|
                    0 <= i < earlier.len() && (#[trigger] earlier[i]).outcome
                        == SendOutcome::Disconnected;
                assert(sent@[i] == earlier[i]);
            }
            if result is Err {
                assert(sent@[earlier.len() as int].outcome == SendOutcome::Disconnected);
            } else if is_lost(sent@) {
                let i = choose|i: int|
                    0 <= i < sent@.len() && (#[trigger] sent@[i]).outcome
                        == SendOutcome::Disconnected;
                assert(earlier[i] == sent@[i]);
            }
        }
        if result.is_err() {
            connected = false;
        }
    }
    (connected, sent)
}

/// One polled frame: what its header says, and its samples with their channels mixed into one.
pub struct PolledFrame {
    pub sample_rate_hz: u32,
    pub channels: u16,
    /// How many samples the frame has over all its channels.
    pub sample_count: usize,
    /// One sample for each moment.
    pub mono: Vec<u32>,
    pub lineage: AudioChunkLineage,
}

/// What is wrong with a frame's header.
pub open spec fn format_problem(sample_rate_hz: u32, channels: u16, sample_count: usize) -> Option<
    Seq<char>,
> {
    if sample_rate_hz != POCKETSTATION_SAMPLE_RATE_HZ {
        Some(
            "expected "@ + decimal_of(POCKETSTATION_SAMPLE_RATE_HZ as nat)
                + " Hz canonical audio, received "@ + decimal_of(sample_rate_hz as nat) + " Hz"@,
        )
    } else if channels == 0 || sample_count as int % channels as int != 0 {
        Some("received an invalid channel layout"@)
    } else {
        None
    }
}

/// Refuses a frame that is not in the rate it should be, or whose samples do not divide into its
/// channels.
pub fn check_frame_format(sample_rate_hz: u32, channels: u16, sample_count: usize) -> (result:
    Result<(), CaptureError>)
    ensures
        match format_problem(sample_rate_hz, channels, sample_count) {
            None => result is Ok,
            Some(problem) => result matches Err(error) && is_capture_error(
                error,
                "read PocketStation microphone"@,
                problem,
            ),
        },
{
    if sample_rate_hz != POCKETSTATION_SAMPLE_RATE_HZ {
        let mut problem = joined(
            "expected ",
            decimal_text(POCKETSTATION_SAMPLE_RATE_HZ as u64).as_str(),
        );
        problem.append(" Hz canonical audio, received ");
        problem.append(decimal_text(sample_rate_hz as u64).as_str());
        problem.append(" Hz");
        return Err(capture_error("read PocketStation microphone", problem.as_str()));
    }
    if channels == 0 || sample_count % (channels as usize) != 0 {
        return Err(
            capture_error("read PocketStation microphone", "received an invalid channel layout"),
        );
    }
    Ok(())
}

/// The samples that are kept of a frame: every third, the first where `phase` is zero.
pub open spec fn downsampled(phase: int, mono: Seq<u32>) -> Seq<u32>
    decreases mono.len(),
{
    if mono.len() == 0 {
        Seq::empty()
    } else if (phase + mono.len() - 1) % 3 == 0 {
        downsampled(phase, mono.drop_last()).push(mono.last())
    } else {
        downsampled(phase, mono.drop_last())
    }
}

/// How far into three samples the next frame starts.
pub open spec fn phase_after(phase: int, mono: Seq<u32>) -> int {
    (phase + mono.len()) % 3
}

/// Keeps every third sample.
pub fn downsample(phase: usize, mono: &Vec<u32>) -> (kept: (Vec<u32>, usize))
    requires
        phase < DOWNSAMPLE_RATIO,
    ensures
        kept.0@ == downsampled(phase as int, mono@),
        kept.1 == phase_after(phase as int, mono@),
{
    let mut kept: Vec<u32> = Vec::new();
    let mut at: usize = phase;
    let mut i: usize = 0;
    assert(mono@.take(0) =~= Seq::<u32>::empty());
    while i < mono.len()
        invariant
            i <= mono@.len(),
            at < 3,
            at == (phase + i) % 3,
            kept@ == downsampled(phase as int, mono@.take(i as int)),
        decreases mono@.len() - i,
    {
        assert(mono@.take(i + 1).drop_last() =~= mono@.take(i as int));
        if at == 0 {
            kept.push(mono[i]);
        }
        at = (at + 1) % DOWNSAMPLE_RATIO;
        i = i + 1;
    }
    assert(mono@.take(i as int) =~= mono@);
    (kept, at)
}

/// Two frames one after the other keep the samples that one frame with all of theirs would.
pub proof fn downsampling_goes_on_across_frames(phase: int, first: Seq<u32>, second: Seq<u32>)
    requires
        0 <= phase < 3,
    ensures
        downsampled(phase, first + second) == downsampled(phase, first) + downsampled(
            phase_after(phase, first),
            second,
        ),
        phase_after(phase, first + second) == phase_after(phase_after(phase, first), second),
    decreases second.len(),
{
    if second.len() == 0 {
        assert(first + second =~= first);
        assert(downsampled(phase, first) + Seq::<u32>::empty() =~= downsampled(phase, first));
    } else {
        let whole = first + second;
        assert(whole.drop_last() =~= first + second.drop_last());
        downsampling_goes_on_across_frames(phase, first, second.drop_last());
        let after = phase_after(phase, first);
        let kept = downsampled(phase, first);
        let more = downsampled(after, second.drop_last());
        assert((phase + whole.len() - 1) % 3 == (after + second.len() - 1) % 3);
        assert((kept + more).push(second.last()) =~= kept + more.push(second.last()));
    }
}

/// What a [`MicrophoneAudioChunkWriter`] stands at.
pub struct WriterView {
    /// How far into three samples the next frame starts.
    pub phase: int,
    /// The samples that fill no chunk yet.
    pub buffer: Seq<u32>,
    /// The index of the next chunk.
    pub next: u64,
    /// Where the samples since the last chunk come from.
    pub pending: Option<AudioChunkLineage>,
    /// The last frame that was written.
    pub latest: Option<AudioChunkLineage>,
}

/// Writes microphone frames as chunks.
pub struct MicrophoneAudioChunkWriter {
    downsample_phase_samples: usize,
    chunks: ChunkAccumulator,
    pending_lineage: Option<AudioChunkLineage>,
    latest_source_frame: Option<AudioChunkLineage>,
    sent: Ghost<Seq<SentChunk>>,
}

impl View for MicrophoneAudioChunkWriter {
    type V = WriterView;

    closed spec fn view(&self) -> WriterView {
        WriterView {
            phase: self.downsample_phase_samples as int,
            buffer: self.chunks.buffer@,
            next: self.chunks.next,
            pending: self.pending_lineage,
            latest: self.latest_source_frame,
        }
    }
}

/// What holds of a writer at all times: what is pending comes from the source of the last frame.
pub open spec fn is_steady(writer: WriterView) -> bool {
    &&& 0 <= writer.phase < DOWNSAMPLE_RATIO
    &&& writer.buffer.len() < CHUNK_SAMPLES
    &&& writer.pending matches Some(pending) ==> (writer.latest matches Some(latest)
        && is_same_source(latest, pending))
}

/// A writer that has written nothing.
pub open spec fn fresh_writer(next: u64) -> WriterView {
    WriterView { phase: 0, buffer: Seq::empty(), next, pending: None, latest: None }
}

/// A writer after samples of a stretch, apart from which frame was the last.
pub open spec fn pushed(
    writer: WriterView,
    samples: Seq<u32>,
    lineage: AudioChunkLineage,
) -> WriterView {
    let whole = writer.buffer + samples;
    WriterView {
        buffer: left_over(whole),
        next: index_after(whole, writer.next),
        pending: if whole.len() < CHUNK_SAMPLES {
            Some(merged(writer.pending, lineage))
        } else {
            None
        },
        ..writer
    }
}

/// The chunks that samples of a stretch fill.
pub open spec fn chunks_filled(
    writer: WriterView,
    samples: Seq<u32>,
    lineage: AudioChunkLineage,
) -> Seq<ChunkView> {
    cut(writer.buffer + samples, writer.next, Some(merged(writer.pending, lineage)))
}

/// `n` samples of silence.
pub open spec fn silence(n: nat) -> Seq<u32> {
    Seq::new(n, |i: int| 0u32)
}

/// The stretch that stands in for the frame that is missing `offset` frames after `previous`.
pub open spec fn missing_stretch(
    previous: AudioChunkLineage,
    frame: AudioChunkLineage,
    offset: int,
) -> AudioChunkLineage {
    let sequence = saturated(saturated(previous.last_sequence_number + offset) + 1);
    AudioChunkLineage {
        first_sequence_number: sequence,
        last_sequence_number: sequence,
        missing_sequence_count: 1,
        inserted_silence_samples: SOURCE_FRAME_SAMPLES as u64,
        timestamp_start_ns: saturated(
            end_of(previous) + saturated(offset * SOURCE_FRAME_DURATION_NS),
        ),
        duration_ns: SOURCE_FRAME_DURATION_NS,
        ..frame
    }
}

/// A writer after the first `n` missing frames are filled with silence.
pub open spec fn filled(
    writer: WriterView,
    previous: AudioChunkLineage,
    frame: AudioChunkLineage,
    n: nat,
) -> WriterView
    decreases n,
{
    if n == 0 {
        writer
    } else {
        pushed(
            filled(writer, previous, frame, (n - 1) as nat),
            silence(SOURCE_FRAME_SAMPLES as nat),
            missing_stretch(previous, frame, n - 1),
        )
    }
}

/// What goes before a frame: a writer that starts over where the source changed, or whose gap is
/// filled with silence.
pub open spec fn prepared(writer: WriterView, frame: AudioChunkLineage) -> WriterView {
    match writer.latest {
        None => writer,
        Some(previous) => if !is_same_source(previous, frame) {
            fresh_writer(writer.next)
        } else if is_contiguous(previous, frame) {
            writer
        } else {
            filled(writer, previous, frame, frames_between(previous, frame) as nat)
        },
    }
}

/// What is wrong with a frame that follows the last one.
pub open spec fn frame_problem(writer: WriterView, frame: AudioChunkLineage) -> Option<Seq<char>> {
    match writer.latest {
        None => None,
        Some(previous) => if !is_same_source(previous, frame) || is_contiguous(previous, frame) {
            None
        } else {
            gap_problem(previous, frame)
        },
    }
}

/// A writer after a frame.
pub open spec fn frame_written(
    writer: WriterView,
    samples: Seq<u32>,
    frame: AudioChunkLineage,
) -> WriterView {
    WriterView { latest: Some(frame), ..pushed(prepared(writer, frame), samples, frame) }
}

proof fn pushing_keeps_steady(
    writer: WriterView,
    samples: Seq<u32>,
    lineage: AudioChunkLineage,
)
    requires
        is_steady(writer),
        writer.latest matches Some(latest) ==> is_same_source(latest, lineage),
    ensures
        ({
            let after = pushed(writer, samples, lineage);
            &&& 0 <= after.phase < DOWNSAMPLE_RATIO
            &&& after.buffer.len() < CHUNK_SAMPLES
            &&& after.latest == writer.latest
            &&& after.pending matches Some(pending) ==> is_same_source(lineage, pending)
            &&& writer.latest is Some ==> is_steady(after)
        }),
{
    cutting_loses_nothing(writer.buffer + samples, writer.next, None);
}

proof fn filling_keeps_steady(
    writer: WriterView,
    previous: AudioChunkLineage,
    frame: AudioChunkLineage,
    n: nat,
)
    requires
        is_steady(writer),
        writer.latest == Some(previous),
        is_same_source(previous, frame),
    ensures
        is_steady(filled(writer, previous, frame, n)),
        filled(writer, previous, frame, n).latest == Some(previous),
        filled(writer, previous, frame, n).phase == writer.phase,
    decreases n,
{
    if n > 0 {
        let before = (n - 1) as nat;
        filling_keeps_steady(writer, previous, frame, before);
        pushing_keeps_steady(
            filled(writer, previous, frame, before),
            silence(SOURCE_FRAME_SAMPLES as nat),
            missing_stretch(previous, frame, n - 1),
        );
    }
}

/// What becomes of a writer and one polled frame: a frame in a wrong format changes nothing, one
/// that a gap refuses only turns the phase, and any other is written unless the receiver is gone.
pub open spec fn frame_outcome(
    before: WriterView,
    frame: PolledFrame,
    result: Result<(), CaptureError>,
    after: WriterView,
) -> bool {
    let samples = downsampled(before.phase, frame.mono@);
    let turned = WriterView { phase: phase_after(before.phase, frame.mono@), ..before };
    match format_problem(frame.sample_rate_hz, frame.channels, frame.sample_count) {
        Some(problem) => {
            &&& after == before
            &&& result matches Err(error) && is_capture_error(
                error,
                "read PocketStation microphone"@,
                problem,
            )
        },
        None => match frame_problem(before, frame.lineage) {
            Some(problem) => {
                &&& after == turned
                &&& result matches Err(error) && is_capture_error(
                    error,
                    "preserve PocketStation microphone timeline"@,
                    problem,
                )
            },
            None => match result {
                Ok(_) => after == frame_written(turned, samples, frame.lineage),
                Err(error) => is_delivery_error(error),
            },
        },
    }
}

/// The chunks that filling the first `n` missing frames gives.
pub open spec fn fill_chunks(
    writer: WriterView,
    previous: AudioChunkLineage,
    frame: AudioChunkLineage,
    n: nat,
) -> Seq<ChunkView>
    decreases n,
{
    if n == 0 {
        Seq::empty()
    } else {
        let before = filled(writer, previous, frame, (n - 1) as nat);
        fill_chunks(writer, previous, frame, (n - 1) as nat) + chunks_filled(
            before,
            silence(SOURCE_FRAME_SAMPLES as nat),
            missing_stretch(previous, frame, n - 1),
        )
    }
}

/// The chunks that filling the gap before a frame gives.
pub open spec fn gap_chunks(writer: WriterView, frame: AudioChunkLineage) -> Seq<ChunkView> {
    match writer.latest {
        Some(previous) if is_same_source(previous, frame) && !is_contiguous(previous, frame) => {
            fill_chunks(writer, previous, frame, frames_between(previous, frame) as nat)
        },
        _ => Seq::empty(),
    }
}

/// The chunks that a frame gives: those of the gap before it, then its own.
pub open spec fn frame_chunks(
    writer: WriterView,
    samples: Seq<u32>,
    frame: AudioChunkLineage,
) -> Seq<ChunkView> {
    gap_chunks(writer, frame) + chunks_filled(prepared(writer, frame), samples, frame)
}

/// What is recorded of a frame's chunks: all of them or, once the receiver is gone, the first ones up
/// to where that was seen.
pub open spec fn frame_delivered(
    before: Seq<SentChunk>,
    chunks: Seq<ChunkView>,
    written: bool,
    after: Seq<SentChunk>,
    dropped_before: u64,
    dropped: u64,
) -> bool {
    &&& written == !is_lost(sent_since(before, after))
    &&& if written {
        delivered(before, chunks, after, dropped_before, dropped)
    } else {
        exists|n: int|
            0 <= n <= chunks.len() && delivered(
                before,
                #[trigger] chunks.take(n),
                after,
                dropped_before,
                dropped,
            )
    }
}

/// What is recorded of one polled frame: nothing of a frame that is refused.
pub open spec fn frame_sent(
    before: MicrophoneAudioChunkWriter,
    frame: PolledFrame,
    written: bool,
    after: MicrophoneAudioChunkWriter,
    dropped_before: u64,
    dropped: u64,
) -> bool {
    let samples = downsampled(before@.phase, frame.mono@);
    let turned = WriterView { phase: phase_after(before@.phase, frame.mono@), ..before@ };
    if format_problem(frame.sample_rate_hz, frame.channels, frame.sample_count) is Some
        || frame_problem(before@, frame.lineage) is Some {
        after.sent() == before.sent() && dropped == dropped_before
    } else {
        frame_delivered(
            before.sent(),
            frame_chunks(turned, samples, frame.lineage),
            written,
            after.sent(),
            dropped_before,
            dropped,
        )
    }
}

proof fn nothing_is_delivered(sent: Seq<SentChunk>, dropped: u64)
    ensures
        delivered(sent, Seq::empty(), sent, dropped, dropped),
        !is_lost(sent_since(sent, sent)),
{
    assert(sent.take(sent.len() as int) =~= sent);
    assert(sent_since(sent, sent).len() == 0);
}

proof fn fills_come_in_order(
    writer: WriterView,
    previous: AudioChunkLineage,
    frame: AudioChunkLineage,
    some: nat,
    all: nat,
)
    requires
        some <= all,
    ensures
        ({
            let first = fill_chunks(writer, previous, frame, some);
            let whole = fill_chunks(writer, previous, frame, all);
            first.len() <= whole.len() && whole.take(first.len() as int) == first
        }),
    decreases all,
{
    let first = fill_chunks(writer, previous, frame, some);
    let whole = fill_chunks(writer, previous, frame, all);
    if some == all {
        assert(whole.take(first.len() as int) =~= first);
    } else {
        let fewer = fill_chunks(writer, previous, frame, (all - 1) as nat);
        fills_come_in_order(writer, previous, frame, some, (all - 1) as nat);
        assert(whole.take(first.len() as int) =~= fewer.take(first.len() as int));
    }
}

/// The error for a receiver that is gone.
pub open spec fn is_delivery_error(error: CaptureError) -> bool {
    is_capture_error(
        error,
        "deliver PocketStation microphone"@,
        "Minutes stopped receiving microphone audio"@,
    )
}

impl MicrophoneAudioChunkWriter {
    /// The record that the writer keeps of its chunks so far.
    pub closed spec fn sent(self) -> Seq<SentChunk> {
        self.sent@
    }

    /// A writer that has written nothing.
    pub fn new() -> (writer: Self)
        ensures
            writer@ == fresh_writer(0),
            writer.sent().len() == 0,
            is_steady(writer@),
    {
        let writer = MicrophoneAudioChunkWriter {
            downsample_phase_samples: 0,
            chunks: ChunkAccumulator::default(),
            pending_lineage: None,
            latest_source_frame: None,
            sent: Ghost(Seq::empty()),
        };
        assert(writer@.buffer =~= Seq::<u32>::empty());
        writer
    }

    /// Starts over after a break in the source. The chunks are numbered on.
    pub fn reset_for_discontinuity(&mut self)
        ensures
            final(self)@ == fresh_writer(old(self)@.next),
            final(self).sent() == old(self).sent(),
            is_steady(final(self)@),
    {
        self.downsample_phase_samples = 0;
        self.chunks.clear();
        self.pending_lineage = None;
        self.latest_source_frame = None;
        assert(self@.buffer =~= Seq::<u32>::empty());
    }

    /// Takes in samples of a stretch and gives the chunks that they fill.
    pub fn take_chunks(&mut self, samples: &Vec<u32>, lineage: AudioChunkLineage) -> (chunks: Vec<
        AudioChunk,
    >)
        requires
            old(self)@.pending matches Some(pending) ==> is_same_source(pending, lineage),
        ensures
            final(self)@ == pushed(old(self)@, samples@, lineage),
            final(self).sent() == old(self).sent(),
            chunks_view(chunks@) == chunks_filled(old(self)@, samples@, lineage),
    {
        let mut pending = Some(merge_source_interval(self.pending_lineage, lineage));
        let chunks = self.chunks.push(samples, &mut pending);
        self.pending_lineage = pending;
        chunks
    }

    /// Takes in samples of a stretch and sends the chunks that they fill, each without waiting.
    fn push_samples(
        &mut self,
        samples: &Vec<u32>,
        lineage: AudioChunkLineage,
        sink: &crossbeam_channel::Sender<AudioChunk>,
        dropped_chunks_total: &mut u64,
    ) -> (result: Result<(), CaptureError>)
        requires
            old(self)@.pending matches Some(pending) ==> is_same_source(pending, lineage),
        ensures
            final(self)@ == pushed(old(self)@, samples@, lineage),
            delivered(
                old(self).sent(),
                chunks_filled(old(self)@, samples@, lineage),
                final(self).sent(),
                *old(dropped_chunks_total),
                *final(dropped_chunks_total),
            ),
            result is Err == is_lost(sent_since(old(self).sent(), final(self).sent())),
            result matches Err(error) ==> is_delivery_error(error),
    {
        let ghost earlier = self.sent@;
        let chunks = self.take_chunks(samples, lineage);
        let (connected, sent) = deliver_all(sink, chunks, dropped_chunks_total);
        self.sent = Ghost(earlier + sent@);
        assert(sent_since(earlier, self.sent@) =~= sent@);
        assert(self.sent@.take(earlier.len() as int) =~= earlier);
        if !connected {
            return Err(
                capture_error(
                    "deliver PocketStation microphone",
                    "Minutes stopped receiving microphone audio",
                ),
            );
        }
        Ok(())
    }

    /// Writes the samples of one frame. Where the source changed the writer starts over; frames
    /// that are missing are filled with silence, or refused where there are too many.
    pub fn push_source_frame_samples(
        &mut self,
        samples: &Vec<u32>,
        frame_lineage: AudioChunkLineage,
        sink: &crossbeam_channel::Sender<AudioChunk>,
        dropped_chunks_total: &mut u64,
    ) -> (result: Result<(), CaptureError>)
        requires
            is_steady(old(self)@),
        ensures
            is_steady(final(self)@),
            match frame_problem(old(self)@, frame_lineage) {
                Some(problem) => {
                    &&& final(self)@ == old(self)@
                    &&& final(self).sent() == old(self).sent()
                    &&& *final(dropped_chunks_total) == *old(dropped_chunks_total)
                    &&& result matches Err(error) && is_capture_error(
                        error,
                        "preserve PocketStation microphone timeline"@,
                        problem,
                    )
                },
                None => {
                    &&& frame_delivered(
                        old(self).sent(),
                        frame_chunks(old(self)@, samples@, frame_lineage),
                        result is Ok,
                        final(self).sent(),
                        *old(dropped_chunks_total),
                        *final(dropped_chunks_total),
                    )
                    &&& match result {
                        Ok(_) => final(self)@ == frame_written(old(self)@, samples@, frame_lineage),
                        Err(error) => is_delivery_error(error),
                    }
                },
            },
    {
        let ghost start = self@;
        let ghost earlier = self.sent();
        let ghost dropped = *dropped_chunks_total;
        let ghost expected = frame_chunks(start, samples@, frame_lineage);
        let ghost gap = gap_chunks(start, frame_lineage);
        proof {
            nothing_is_delivered(earlier, dropped);
        }
        if let Some(previous) = self.latest_source_frame {
            if !same_source_interval(previous, frame_lineage) {
                self.reset_for_discontinuity();
            } else if !contiguous_source_interval(previous, frame_lineage) {
                let missing_frames: u64 = match missing_source_frames(previous, frame_lineage) {
                    Ok(frames) => frames,
                    Err(error) => {
                        return Err(error);
                    },
                };
                proof {
                    filled_gaps_are_bounded(previous, frame_lineage);
                }
                let zeros = silent_samples();
                let mut offset: u64 = 0;
                while offset < missing_frames
                    invariant
                        is_steady(start),
                        start == old(self)@,
                        start.latest == Some(previous),
                        is_same_source(previous, frame_lineage),
                        !is_contiguous(previous, frame_lineage),
                        gap_problem(previous, frame_lineage) is None,
                        missing_frames == frames_between(previous, frame_lineage),
                        missing_frames <= 200,
                        offset <= missing_frames,
                        zeros@ == silence(SOURCE_FRAME_SAMPLES as nat),
                        self@ == filled(start, previous, frame_lineage, offset as nat),
                        earlier == old(self).sent(),
                        dropped == *old(dropped_chunks_total),
                        expected == frame_chunks(start, samples@, frame_lineage),
                        delivered(
                            earlier,
                            fill_chunks(start, previous, frame_lineage, offset as nat),
                            self.sent(),
                            dropped,
                            *dropped_chunks_total,
                        ),
                        !is_lost(sent_since(earlier, self.sent())),
                    decreases missing_frames - offset,
                {
                    let sequence_number: u64 = previous.last_sequence_number.saturating_add(
                        offset,
                    ).saturating_add(1);
                    let elapsed_ns: u64 = offset * SOURCE_FRAME_DURATION_NS;
                    let missing_lineage = AudioChunkLineage {
                        first_sequence_number: sequence_number,
                        last_sequence_number: sequence_number,
                        missing_sequence_count: 1,
                        inserted_silence_samples: SOURCE_FRAME_SAMPLES as u64,
                        timestamp_start_ns: previous.timestamp_end_ns().saturating_add(elapsed_ns),
                        duration_ns: SOURCE_FRAME_DURATION_NS,
                        ..frame_lineage
                    };
                    proof {
                        assert(missing_lineage == missing_stretch(
                            previous,
                            frame_lineage,
                            offset as int,
                        ));
                        filling_keeps_steady(start, previous, frame_lineage, offset as nat);
                        filling_keeps_steady(start, previous, frame_lineage, (offset + 1) as nat);
                    }
                    let ghost middle = self.sent();
                    let ghost dropped_between = *dropped_chunks_total;
                    let ghost before = self@;
                    let result = self.push_samples(
                        &zeros,
                        missing_lineage,
                        sink,
                        dropped_chunks_total,
                    );
                    proof {
                        let more = (offset + 1) as nat;
                        let all = fill_chunks(start, previous, frame_lineage, more);
                        delivery_goes_on(
                            earlier,
                            fill_chunks(start, previous, frame_lineage, offset as nat),
                            middle,
                            chunks_filled(before, zeros@, missing_lineage),
                            self.sent(),
                            dropped,
                            dropped_between,
                            *dropped_chunks_total,
                        );
                        fills_come_in_order(
                            start,
                            previous,
                            frame_lineage,
                            more,
                            missing_frames as nat,
                        );
                        assert(expected.take(all.len() as int) =~= all);
                    }
                    if let Err(error) = result {
                        return Err(error);
                    }
                    offset = offset + 1;
                }
                proof {
                    filling_keeps_steady(start, previous, frame_lineage, offset as nat);
                }
            }
        }
        proof {
            assert(self@ == prepared(start, frame_lineage));
            pushing_keeps_steady(self@, samples@, frame_lineage);
        }
        let ghost before = self@;
        let ghost middle = self.sent();
        let ghost dropped_between = *dropped_chunks_total;
        let result = self.push_samples(samples, frame_lineage, sink, dropped_chunks_total);
        proof {
            assert(delivered(earlier, gap, middle, dropped, dropped_between));
            delivery_goes_on(
                earlier,
                gap,
                middle,
                chunks_filled(before, samples@, frame_lineage),
                self.sent(),
                dropped,
                dropped_between,
                *dropped_chunks_total,
            );
            assert(expected.take(expected.len() as int) =~= expected);
        }
        if let Err(error) = result {
            proof {
                if before.latest is None {
                    assert(chunks_filled(before, samples@, frame_lineage).len() > 0);
                }
            }
            return Err(error);
        }
        self.latest_source_frame = Some(frame_lineage);
        Ok(())
    }

    /// Writes one polled frame.
    pub fn write_frame(
        &mut self,
        frame: &PolledFrame,
        sink: &crossbeam_channel::Sender<AudioChunk>,
        dropped_chunks_total: &mut u64,
    ) -> (result: Result<(), CaptureError>)
        requires
            is_steady(old(self)@),
        ensures
            is_steady(final(self)@),
            frame_outcome(old(self)@, *frame, result, final(self)@),
            frame_sent(
                *old(self),
                *frame,
                result is Ok,
                *final(self),
                *old(dropped_chunks_total),
                *final(dropped_chunks_total),
            ),
    {
        if let Err(error) = check_frame_format(
            frame.sample_rate_hz,
            frame.channels,
            frame.sample_count,
        ) {
            return Err(error);
        }
        let (samples, phase) = downsample(self.downsample_phase_samples, &frame.mono);
        self.downsample_phase_samples = phase;
        self.push_source_frame_samples(&samples, frame.lineage, sink, dropped_chunks_total)
    }
}

fn silent_samples() -> (zeros: Vec<u32>)
    ensures
        zeros@ == silence(SOURCE_FRAME_SAMPLES as nat),
{
    let mut zeros: Vec<u32> = Vec::new();
    while zeros.len() < SOURCE_FRAME_SAMPLES
        invariant
            zeros@.len() <= SOURCE_FRAME_SAMPLES,
            forall|k: int| 0 <= k < zeros@.len() ==> zeros@[k] == 0,
        decreases SOURCE_FRAME_SAMPLES - zeros@.len(),
    {
        zeros.push(0);
    }
    assert(zeros@ =~= silence(SOURCE_FRAME_SAMPLES as nat));
    zeros
}

proof fn samples_of_both(first: Seq<ChunkView>, second: Seq<ChunkView>)
    ensures
        samples_of(first + second) == samples_of(first) + samples_of(second),
    decreases first.len(),
{
    if first.len() == 0 {
        assert(first + second =~= second);
        assert(samples_of(first) + samples_of(second) =~= samples_of(second));
    } else {
        assert((first + second).drop_first() =~= first.drop_first() + second);
        samples_of_both(first.drop_first(), second);
        assert(samples_of(first + second) =~= samples_of(first) + samples_of(second));
    }
}

/// A gap of `n` frames is filled with exactly their silence: what was gathered before it, then the
/// samples of `n` silent frames, and nothing else.
pub proof fn gaps_become_exact_silence(
    writer: WriterView,
    previous: AudioChunkLineage,
    frame: AudioChunkLineage,
    n: nat,
)
    ensures
        samples_of(fill_chunks(writer, previous, frame, n)) + filled(
            writer,
            previous,
            frame,
            n,
        ).buffer == writer.buffer + silence(n * SOURCE_FRAME_SAMPLES as nat),
    decreases n,
{
    if n == 0 {
        assert(samples_of(fill_chunks(writer, previous, frame, n)) + writer.buffer =~= writer.buffer
            + silence(0));
    } else {
        let m = (n - 1) as nat;
        let frame_silence = silence(SOURCE_FRAME_SAMPLES as nat);
        let before = filled(writer, previous, frame, m);
        let stretch = missing_stretch(previous, frame, m as int);
        let whole = before.buffer + frame_silence;
        gaps_become_exact_silence(writer, previous, frame, m);
        cutting_loses_nothing(whole, before.next, Some(merged(before.pending, stretch)));
        let earlier = fill_chunks(writer, previous, frame, m);
        let new = chunks_filled(before, frame_silence, stretch);
        samples_of_both(earlier, new);
        assert(samples_of(earlier + new) + left_over(whole) =~= samples_of(earlier) + (samples_of(
            new,
        ) + left_over(whole)));
        assert(samples_of(earlier) + (before.buffer + frame_silence) =~= (samples_of(earlier)
            + before.buffer) + frame_silence);
        assert(m * SOURCE_FRAME_SAMPLES as nat + SOURCE_FRAME_SAMPLES as nat == n
            * SOURCE_FRAME_SAMPLES as nat) by (nonlinear_arith)
            requires
                m + 1 == n,
        ;
        assert((writer.buffer + silence(m * SOURCE_FRAME_SAMPLES as nat)) + frame_silence
            =~= writer.buffer + silence(n * SOURCE_FRAME_SAMPLES as nat));
    }
}

/// How many frames are missing between the last frame and this one; none where the source changed.
pub open spec fn frames_missing(writer: WriterView, frame: AudioChunkLineage) -> nat {
    match writer.latest {
        Some(previous) if is_same_source(previous, frame) && !is_contiguous(previous, frame) => {
            frames_between(previous, frame) as nat
        },
        _ => 0,
    }
}

/// What is gathered when a frame comes; nothing where the source changed.
pub open spec fn gathered_before(writer: WriterView, frame: AudioChunkLineage) -> Seq<u32> {
    match writer.latest {
        Some(previous) if !is_same_source(previous, frame) => Seq::empty(),
        _ => writer.buffer,
    }
}

/// A frame that is written loses no sample and adds none: its chunks and what is left over are
/// what was gathered before, the silence of the frames that are missing, and its own samples.
pub proof fn written_frames_lose_nothing(
    writer: WriterView,
    samples: Seq<u32>,
    frame: AudioChunkLineage,
)
    ensures
        samples_of(frame_chunks(writer, samples, frame)) + frame_written(
            writer,
            samples,
            frame,
        ).buffer == gathered_before(writer, frame) + silence(
            frames_missing(writer, frame) * SOURCE_FRAME_SAMPLES as nat,
        ) + samples,
{
    let ready = prepared(writer, frame);
    let gap = gap_chunks(writer, frame);
    let missing = frames_missing(writer, frame);
    let quiet = gathered_before(writer, frame) + silence(missing * SOURCE_FRAME_SAMPLES as nat);
    assert(samples_of(gap) + ready.buffer == quiet) by {
        match writer.latest {
            Some(previous) if is_same_source(previous, frame) && !is_contiguous(previous, frame) => {
                gaps_become_exact_silence(writer, previous, frame, missing);
            },
            _ => {
                assert(samples_of(gap) + ready.buffer =~= quiet);
            },
        }
    }
    let own = chunks_filled(ready, samples, frame);
    cutting_loses_nothing(
        ready.buffer + samples,
        ready.next,
        Some(merged(ready.pending, frame)),
    );
    samples_of_both(gap, own);
    let rest = left_over(ready.buffer + samples);
    assert((samples_of(gap) + samples_of(own)) + rest =~= samples_of(gap) + (samples_of(own)
        + rest));
    assert(samples_of(gap) + (ready.buffer + samples) =~= (samples_of(gap) + ready.buffer)
        + samples);
}

/// A gap that is filled leaves no sequence number out: the frames that stand in are numbered on
/// from the last frame, and the frame after the gap is numbered on from them.
pub proof fn filled_gaps_leave_no_sequence_out(
    previous: AudioChunkLineage,
    frame: AudioChunkLineage,
    k: int,
)
    requires
        gap_problem(previous, frame) is None,
        0 <= k < frames_between(previous, frame),
    ensures
        missing_stretch(previous, frame, k).first_sequence_number == previous.last_sequence_number
            + 1 + k,
        missing_stretch(previous, frame, k).last_sequence_number
            == previous.last_sequence_number + 1 + k,
        frame.first_sequence_number == previous.last_sequence_number + 1 + frames_between(
            previous,
            frame,
        ),
        is_same_source(previous, frame) ==> is_same_source(
            previous,
            missing_stretch(previous, frame, k),
        ),
{
}

} // verus!
