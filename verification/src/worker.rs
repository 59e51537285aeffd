//! The worker that reads a microphone: what it does next, and what it keeps of what it saw.

use vstd::prelude::*;
use crate::chunk_writer::{
    frame_outcome, frame_sent, fresh_writer, is_steady, AudioChunk, MicrophoneAudioChunkWriter,
    PolledFrame,
};
use crate::errors::{capture_error, is_capture_error, CaptureError};
use crate::observations::{
    attached, current_reading, epoch_of, generation_of, is_current_signal, observed, projected,
    source_of, update_observations, window_of, MicrophoneObservations, NativeFormat,
    ObservationContinuityTracker, SampleRepresentation, SourceSnapshot,
};
use crate::selection::MicrophoneSelection;
use crate::signal::{
    evaluation_of, microphone_activity_policy, observation_time, tracker_after, ActivityPolicy,
    LowSignalTracker, MicrophoneSignalState, FIRST_FRAME_TIMEOUT_NS, STALL_TIMEOUT_NS,
};
use crate::text::same_text;

verus! {

/// Which device a diagnostic speaks of.
pub struct MicrophoneDiagnosticIdentity {
    pub device_id: String,
    pub display_name: String,
}

/// What a [`MicrophoneDiagnosticIdentity`] holds.
pub struct IdentityView {
    pub device_id: Seq<char>,
    pub display_name: Seq<char>,
}

impl View for MicrophoneDiagnosticIdentity {
    type V = IdentityView;

    open spec fn view(&self) -> IdentityView {
        IdentityView { device_id: self.device_id@, display_name: self.display_name@ }
    }
}

impl MicrophoneDiagnosticIdentity {
    /// The identity of a microphone that was selected.
    pub fn of(selection: &MicrophoneSelection) -> (identity: Self)
        ensures
            identity@ == (IdentityView {
                device_id: selection@.device_id,
                display_name: selection@.display_name,
            }),
    {
        MicrophoneDiagnosticIdentity {
            device_id: selection.device_id.clone(),
            display_name: selection.display_name.clone(),
        }
    }
}

/// The word for a sample representation.
pub open spec fn representation_word(representation: SampleRepresentation) -> Seq<char> {
    match representation {
        SampleRepresentation::SignedInteger8 => "SignedInteger8"@,
        SampleRepresentation::SignedInteger16 => "SignedInteger16"@,
        SampleRepresentation::SignedInteger24 => "SignedInteger24"@,
        SampleRepresentation::SignedInteger32 => "SignedInteger32"@,
        SampleRepresentation::SignedInteger64 => "SignedInteger64"@,
        SampleRepresentation::UnsignedInteger8 => "UnsignedInteger8"@,
        SampleRepresentation::UnsignedInteger16 => "UnsignedInteger16"@,
        SampleRepresentation::UnsignedInteger24 => "UnsignedInteger24"@,
        SampleRepresentation::UnsignedInteger32 => "UnsignedInteger32"@,
        SampleRepresentation::UnsignedInteger64 => "UnsignedInteger64"@,
        SampleRepresentation::Float32 => "Float32"@,
        SampleRepresentation::Float64 => "Float64"@,
    }
}

impl SampleRepresentation {
    /// The word for this representation.
    pub fn word(self) -> (word: &'static str)
        ensures
            word@ == representation_word(self),
    {
        match self {
            SampleRepresentation::SignedInteger8 => "SignedInteger8",
            SampleRepresentation::SignedInteger16 => "SignedInteger16",
            SampleRepresentation::SignedInteger24 => "SignedInteger24",
            SampleRepresentation::SignedInteger32 => "SignedInteger32",
            SampleRepresentation::SignedInteger64 => "SignedInteger64",
            SampleRepresentation::UnsignedInteger8 => "UnsignedInteger8",
            SampleRepresentation::UnsignedInteger16 => "UnsignedInteger16",
            SampleRepresentation::UnsignedInteger24 => "UnsignedInteger24",
            SampleRepresentation::UnsignedInteger32 => "UnsignedInteger32",
            SampleRepresentation::UnsignedInteger64 => "UnsignedInteger64",
            SampleRepresentation::Float32 => "Float32",
            SampleRepresentation::Float64 => "Float64",
        }
    }
}

/// Declares `serde_json::Value`.
#[verifier::external_type_specification]
#[verifier::external_body]
pub struct ExJsonValue(serde_json::Value);

/// Declares `serde_json::Map`, a JSON object.
#[verifier::external_type_specification]
#[verifier::external_body]
#[verifier::reject_recursive_types(K)]
#[verifier::reject_recursive_types(V)]
pub struct ExJsonMap<K, V>(serde_json::Map<K, V>);

/// A field of a JSON object.
pub enum JsonField {
    Text(Seq<char>),
    Number(nat),
}

/// The fields of a JSON object.
pub uninterp spec fn json_fields(
    object: serde_json::Map<String, serde_json::Value>,
) -> Map<Seq<char>, JsonField>;

/// No field.
pub open spec fn no_fields() -> Map<Seq<char>, JsonField> {
    Map::empty()
}

/// `serde_json::Map::new` is an object without a field.
#[verifier::external_body]
fn new_object() -> (object: serde_json::Map<String, serde_json::Value>)
    ensures
        json_fields(object) == no_fields(),
{
    serde_json::Map::new()
}

/// `serde_json::Map::insert` of a text sets that field and no other.
#[verifier::external_body]
fn set_text(object: &mut serde_json::Map<String, serde_json::Value>, key: &str, text: &str)
    ensures
        json_fields(*final(object)) == json_fields(*old(object)).insert(
            key@,
            JsonField::Text(text@),
        ),
{
    object.insert(key.to_string(), serde_json::Value::from(text));
}

/// `serde_json::Map::insert` of a number sets that field and no other.
#[verifier::external_body]
fn set_number(object: &mut serde_json::Map<String, serde_json::Value>, key: &str, number: u64)
    ensures
        json_fields(*final(object)) == json_fields(*old(object)).insert(
            key@,
            JsonField::Number(number as nat),
        ),
{
    object.insert(key.to_string(), serde_json::Value::from(number));
}

/// `chrono::Local::now`, in RFC 3339. Nothing is said of it: it is the time.
#[verifier::external_body]
fn local_time_text() -> String {
    chrono::Local::now().to_rfc3339()
}

/// The fields of the record of an opened format: which device and which format, and none of the
/// audio.
pub open spec fn format_record(
    time: Seq<char>,
    identity: IdentityView,
    native_format: NativeFormat,
    source_generation: u32,
    discontinuity_epoch: u64,
) -> Map<Seq<char>, JsonField> {
    no_fields().insert("ts"@, JsonField::Text(time)).insert(
        "level"@,
        JsonField::Text("info"@),
    ).insert("step"@, JsonField::Text("pocketstation_microphone_opened_format"@)).insert(
        "device_id"@,
        JsonField::Text(identity.device_id),
    ).insert("device_name"@, JsonField::Text(identity.display_name)).insert(
        "sample_rate_hz"@,
        JsonField::Number(native_format.sample_rate_hz as nat),
    ).insert("channel_count"@, JsonField::Number(native_format.channel_count as nat)).insert(
        "sample_representation"@,
        JsonField::Text(representation_word(native_format.sample_representation)),
    ).insert("source_generation"@, JsonField::Number(source_generation as nat)).insert(
        "discontinuity_epoch"@,
        JsonField::Number(discontinuity_epoch as nat),
    ).insert(
        "message"@,
        JsonField::Text("PocketStation microphone opened a native input format"@),
    )
}

/// The record of an opened format. When it was made is the present time.
pub fn opened_native_format_log_entry(
    identity: &MicrophoneDiagnosticIdentity,
    native_format: NativeFormat,
    source_generation: u32,
    discontinuity_epoch: u64,
) -> (entry: serde_json::Map<String, serde_json::Value>)
    ensures
        exists|time: Seq<char>|
            json_fields(entry) == #[trigger] format_record(
                time,
                identity@,
                native_format,
                source_generation,
                discontinuity_epoch,
            ),
{
    let mut entry = new_object();
    let time = local_time_text();
    set_text(&mut entry, "ts", time.as_str());
    set_text(&mut entry, "level", "info");
    set_text(&mut entry, "step", "pocketstation_microphone_opened_format");
    set_text(&mut entry, "device_id", identity.device_id.as_str());
    set_text(&mut entry, "device_name", identity.display_name.as_str());
    set_number(&mut entry, "sample_rate_hz", native_format.sample_rate_hz as u64);
    set_number(&mut entry, "channel_count", native_format.channel_count as u64);
    set_text(
        &mut entry,
        "sample_representation",
        native_format.sample_representation.word(),
    );
    set_number(&mut entry, "source_generation", source_generation as u64);
    set_number(&mut entry, "discontinuity_epoch", discontinuity_epoch);
    set_text(&mut entry, "message", "PocketStation microphone opened a native input format");
    assert(json_fields(entry) == format_record(
        time@,
        identity@,
        native_format,
        source_generation,
        discontinuity_epoch,
    ));
    entry
}

/// By what an attachment is told from another: its generation and its device.
pub open spec fn attachment_key(observations: MicrophoneObservations, identity: IdentityView) -> (
    u32,
    Seq<char>,
) {
    (observations.source_generation, identity.device_id)
}

/// What a key holds.
pub open spec fn key_view(key: (u32, String)) -> (u32, Seq<char>) {
    (key.0, key.1@)
}

/// What an optional key holds.
pub open spec fn optional_key(key: Option<(u32, String)>) -> Option<(u32, Seq<char>)> {
    match key {
        Some(key) => Some(key_view(key)),
        None => None,
    }
}

/// By what an attachment is told from another.
pub fn opened_native_format_diagnostic_key(
    observations: MicrophoneObservations,
    identity: &MicrophoneDiagnosticIdentity,
) -> (key: (u32, String))
    ensures
        key_view(key) == attachment_key(observations, identity@),
{
    (observations.source_generation, identity.device_id.clone())
}

/// Whether observations are of an earlier source than `minimum`.
pub open spec fn precedes_continuity(
    observations: MicrophoneObservations,
    minimum: Option<(u32, u64)>,
) -> bool {
    minimum matches Some((generation, epoch)) && (observations.source_generation < generation || (
    observations.source_generation == generation && observations.discontinuity_epoch < epoch))
}

/// Whether an opened format is to be reported: it is known, it is not of an earlier source than is
/// waited for, and it was not reported of this attachment.
pub open spec fn is_to_report(
    observations: MicrophoneObservations,
    identity: IdentityView,
    minimum: Option<(u32, u64)>,
    logged: Option<(u32, Seq<char>)>,
) -> bool {
    &&& !precedes_continuity(observations, minimum)
    &&& observations.native_format is Some
    &&& logged != Some(attachment_key(observations, identity))
}

/// Whether an object records the format that was observed, as of some time.
pub open spec fn is_format_record(
    entry: serde_json::Map<String, serde_json::Value>,
    observations: MicrophoneObservations,
    identity: IdentityView,
) -> bool {
    exists|time: Seq<char>|
        json_fields(entry) == #[trigger] format_record(
            time,
            identity,
            observations.native_format->0,
            observations.source_generation,
            observations.discontinuity_epoch,
        )
}

fn is_key(logged: &Option<(u32, String)>, key: &(u32, String)) -> (same: bool)
    ensures
        same == (optional_key(*logged) == Some(key_view(*key))),
{
    match logged {
        Some(known) => known.0 == key.0 && same_text(known.1.as_str(), key.1.as_str()),
        None => false,
    }
}

/// Decides whether an opened format is reported, once for each attachment, and gives the record.
pub fn report_opened_native_format_once(
    observations: MicrophoneObservations,
    identity: &MicrophoneDiagnosticIdentity,
    minimum_continuity: Option<(u32, u64)>,
    logged: &mut Option<(u32, String)>,
) -> (report: Option<serde_json::Map<String, serde_json::Value>>)
    ensures
        if is_to_report(
            observations,
            identity@,
            minimum_continuity,
            optional_key(*old(logged)),
        ) {
            &&& optional_key(*final(logged)) == Some(attachment_key(observations, identity@))
            &&& report matches Some(entry) && is_format_record(entry, observations, identity@)
        } else {
            report is None && *final(logged) == *old(logged)
        },
{
    if let Some((generation, epoch)) = minimum_continuity {
        if observations.source_generation < generation || (observations.source_generation
            == generation && observations.discontinuity_epoch < epoch) {
            return None;
        }
    }
    let native_format = match observations.native_format {
        Some(native_format) => native_format,
        None => {
            return None;
        },
    };
    let key = opened_native_format_diagnostic_key(observations, identity);
    if is_key(logged, &key) {
        return None;
    }
    let entry = opened_native_format_log_entry(
        identity,
        native_format,
        observations.source_generation,
        observations.discontinuity_epoch,
    );
    *logged = Some(key);
    Some(entry)
}

/// Unchanged observations are reported once.
pub proof fn formats_are_reported_once(
    observations: MicrophoneObservations,
    identity: IdentityView,
    minimum: Option<(u32, u64)>,
)
    ensures
        !is_to_report(
            observations,
            identity,
            minimum,
            Some(attachment_key(observations, identity)),
        ),
{
}

/// What a session tells of itself.
#[derive(Debug, Clone, Copy, PartialEq, Eq, Structural)]
pub enum SessionNotice {
    /// A source failed.
    Source,
    /// An endpoint failed.
    Endpoint,
    /// The session was rolled back.
    Rollback,
    /// The session could not be finalized.
    Finalization,
    /// The session's life ended in failure.
    LifecycleFailed,
    /// The session's outcome is failure.
    TerminalFailed,
    /// Anything else.
    Other,
}

/// What became of one frame of a batch.
pub enum FrameStep {
    /// The frame is of another stem.
    Skipped,
    /// The frame was written.
    Written,
    /// The frame could not be leased; the rest of the batch is left.
    InvalidLease,
    /// The frame could not be written; the rest of the batch is left.
    Failed(CaptureError),
}

/// The worker of one microphone.
pub struct MicrophoneWorker {
    pub stem_id: u64,
    pub writer: MicrophoneAudioChunkWriter,
    pub low_signal_tracker: LowSignalTracker,
    pub observation_continuity: ObservationContinuityTracker,
    pub identity: MicrophoneDiagnosticIdentity,
    /// The attachment whose format was reported last.
    pub logged_attachment: Option<(u32, String)>,
    /// The source that a report waits for.
    pub pending_format_continuity: Option<(u32, u64)>,
    pub source_failed: bool,
    pub failed: bool,
    pub observations: MicrophoneObservations,
    pub dropped_chunks_total: u64,
}

/// Whether a worker has just started.
pub open spec fn is_new_worker(
    worker: MicrophoneWorker,
    stem_id: u64,
    identity: IdentityView,
) -> bool {
    &&& worker.stem_id == stem_id
    &&& worker.writer@ == fresh_writer(0)
    &&& worker.writer.sent().len() == 0
    &&& worker.low_signal_tracker == (LowSignalTracker {
        started_at_ns: None,
        source_generation: 0,
        discontinuity_epoch: 0,
    })
    &&& worker.observation_continuity == (ObservationContinuityTracker {
        continuity: None,
        started_at_ns: 0,
        activity_frames_baseline: 0,
        signal_samples_baseline: 0,
    })
    &&& worker.identity@ == identity
    &&& worker.logged_attachment is None
    &&& worker.pending_format_continuity is None
    &&& !worker.source_failed
    &&& !worker.failed
    &&& worker.observations == (MicrophoneObservations {
        state: MicrophoneSignalState::AwaitingFirstFrame,
        native_format: None,
        activity: None,
        signal: None,
        source_generation: 1,
        discontinuity_epoch: 0,
    })
    &&& worker.dropped_chunks_total == 0
}

/// Whether only the writer, the count of dropped chunks and the failure of a worker may differ.
pub open spec fn differs_by_audio(before: MicrophoneWorker, after: MicrophoneWorker) -> bool {
    after == (MicrophoneWorker {
        writer: after.writer,
        dropped_chunks_total: after.dropped_chunks_total,
        failed: after.failed,
        ..before
    })
}

/// A worker after a notice: a source that failed may be recovered, a session that failed ends the
/// worker.
pub open spec fn after_notice(worker: MicrophoneWorker, notice: SessionNotice) -> MicrophoneWorker {
    match notice {
        SessionNotice::Source => MicrophoneWorker { source_failed: true, ..worker },
        SessionNotice::Other => worker,
        _ => MicrophoneWorker { failed: true, ..worker },
    }
}

impl MicrophoneWorker {
    /// A worker that starts on a stem.
    pub fn new(stem_id: u64, identity: MicrophoneDiagnosticIdentity) -> (worker: Self)
        ensures
            is_new_worker(worker, stem_id, identity@),
            is_steady(worker.writer@),
    {
        MicrophoneWorker {
            stem_id,
            writer: MicrophoneAudioChunkWriter::new(),
            low_signal_tracker: LowSignalTracker::default(),
            observation_continuity: ObservationContinuityTracker::default(),
            identity,
            logged_attachment: None,
            pending_format_continuity: None,
            source_failed: false,
            failed: false,
            observations: MicrophoneObservations::default(),
            dropped_chunks_total: 0,
        }
    }

    /// Whether the worker goes on: until it is told to stop, or has failed.
    pub fn goes_on(&self, stop: bool) -> (yes: bool)
        ensures
            yes == (!stop && !self.failed),
    {
        !stop && !self.failed
    }

    /// Takes in that the source was to be reopened or replaced, with the generation and the epoch
    /// of the new one or why there is none. Either way the failure is forgotten and the writer
    /// starts over; only a new source is reported anew.
    pub fn note_control(
        &mut self,
        identity: MicrophoneDiagnosticIdentity,
        result: &Result<(u32, u64), String>,
    )
        ensures
            final(self).writer@ == fresh_writer(old(self).writer@.next),
            final(self).writer.sent() == old(self).writer.sent(),
            is_steady(final(self).writer@),
            *final(self) == match *result {
                Ok(continuity) => (MicrophoneWorker {
                    writer: final(self).writer,
                    source_failed: false,
                    identity,
                    logged_attachment: None,
                    pending_format_continuity: Some(continuity),
                    ..*old(self)
                }),
                Err(_) => (MicrophoneWorker {
                    writer: final(self).writer,
                    source_failed: false,
                    ..*old(self)
                }),
            },
    {
        self.source_failed = false;
        if let Ok(continuity) = result {
            self.identity = identity;
            self.logged_attachment = None;
            self.pending_format_continuity = Some(*continuity);
        }
        self.writer.reset_for_discontinuity();
    }

    /// Takes in one frame of a batch. Frames of other stems do not count; a frame that cannot be
    /// leased or written ends the worker.
    pub fn note_frame(
        &mut self,
        stem_id: u64,
        frame: Option<&PolledFrame>,
        sink: &crossbeam_channel::Sender<AudioChunk>,
    ) -> (step: FrameStep)
        requires
            is_steady(old(self).writer@),
        ensures
            is_steady(final(self).writer@),
            differs_by_audio(*old(self), *final(self)),
            match frame {
                None => {
                    &&& step is InvalidLease
                    &&& *final(self) == (MicrophoneWorker { failed: true, ..*old(self) })
                },
                Some(frame) => if stem_id != old(self).stem_id {
                    step is Skipped && *final(self) == *old(self)
                } else {
                    &&& frame_sent(
                        old(self).writer,
                        *frame,
                        step is Written,
                        final(self).writer,
                        old(self).dropped_chunks_total,
                        final(self).dropped_chunks_total,
                    )
                    &&& match step {
                        FrameStep::Written => {
                            &&& final(self).failed == old(self).failed
                            &&& frame_outcome(
                                old(self).writer@,
                                *frame,
                                Ok(()),
                                final(self).writer@,
                            )
                        },
                        FrameStep::Failed(error) => {
                            &&& final(self).failed
                            &&& frame_outcome(
                                old(self).writer@,
                                *frame,
                                Err(error),
                                final(self).writer@,
                            )
                        },
                        _ => false,
                    }
                },
            },
    {
        let frame = match frame {
            Some(frame) => frame,
            None => {
                self.failed = true;
                return FrameStep::InvalidLease;
            },
        };
        if stem_id != self.stem_id {
            return FrameStep::Skipped;
        }
        match self.writer.write_frame(frame, sink, &mut self.dropped_chunks_total) {
            Ok(_) => FrameStep::Written,
            Err(error) => {
                self.failed = true;
                FrameStep::Failed(error)
            },
        }
    }

    /// Takes in that the session could not be polled, which ends the worker.
    pub fn note_poll_failure(&mut self)
        ensures
            *final(self) == (MicrophoneWorker { failed: true, ..*old(self) }),
    {
        self.failed = true;
    }

    /// Takes in what a session tells of itself.
    pub fn note_session(&mut self, notice: SessionNotice)
        ensures
            *final(self) == after_notice(*old(self), notice),
    {
        match notice {
            SessionNotice::Source => {
                self.source_failed = true;
            },
            SessionNotice::Other => {},
            _ => {
                self.failed = true;
            },
        }
    }

    /// Takes in what the session measured. Where an opened format is to be reported its record is
    /// handed back.
    pub fn note_measurements(&mut self, sources: &Vec<SourceSnapshot>) -> (report: Option<
        serde_json::Map<String, serde_json::Value>,
    >)
        ensures
            final(self).writer == old(self).writer,
            final(self).identity == old(self).identity,
            final(self).stem_id == old(self).stem_id,
            final(self).source_failed == old(self).source_failed,
            final(self).failed == old(self).failed,
            final(self).dropped_chunks_total == old(self).dropped_chunks_total,
            match source_of(sources@, old(self).stem_id) {
                None => report is None && *final(self) == *old(self),
                Some(source) => {
                    let continuity = attached(
                        old(self).observation_continuity,
                        source.activity,
                        window_of(source),
                        generation_of(source),
                        epoch_of(source),
                    );
                    let policy = ActivityPolicy {
                        first_frame_timeout_ns: FIRST_FRAME_TIMEOUT_NS,
                        stall_timeout_ns: STALL_TIMEOUT_NS,
                    };
                    let due = is_to_report(
                        final(self).observations,
                        old(self).identity@,
                        old(self).pending_format_continuity,
                        optional_key(old(self).logged_attachment),
                    );
                    let current = is_current_signal(
                        continuity,
                        window_of(source),
                        generation_of(source),
                        epoch_of(source),
                    );
                    let signal = current_reading(source, current);
                    &&& final(self).observation_continuity == continuity
                    &&& final(self).low_signal_tracker == tracker_after(
                        old(self).low_signal_tracker,
                        evaluation_of(signal),
                        observation_time(projected(continuity, source.activity, current), signal),
                        generation_of(source),
                        epoch_of(source),
                        old(self).source_failed,
                    )
                    &&& final(self).observations == observed(
                        source,
                        continuity,
                        final(self).low_signal_tracker,
                        policy,
                        old(self).source_failed,
                    )
                    &&& match report {
                        Some(entry) => due && is_format_record(
                            entry,
                            final(self).observations,
                            old(self).identity@,
                        ),
                        None => !due,
                    }
                    &&& final(self).pending_format_continuity == if due {
                        None
                    } else {
                        old(self).pending_format_continuity
                    }
                    &&& optional_key(final(self).logged_attachment) == if due {
                        Some(attachment_key(final(self).observations, old(self).identity@))
                    } else {
                        optional_key(old(self).logged_attachment)
                    }
                },
            },
    {
        let current = match update_observations(
            sources,
            self.stem_id,
            microphone_activity_policy(),
            &mut self.low_signal_tracker,
            &mut self.observation_continuity,
            self.source_failed,
            &mut self.observations,
        ) {
            Some(current) => current,
            None => {
                return None;
            },
        };
        let report = report_opened_native_format_once(
            current,
            &self.identity,
            self.pending_format_continuity,
            &mut self.logged_attachment,
        );
        if report.is_some() {
            self.pending_format_continuity = None;
        }
        report
    }

    /// Takes in how the session was cancelled. A cancellation that did not succeed is a failure.
    pub fn note_cancellation(&mut self, succeeded: bool)
        ensures
            *final(self) == (MicrophoneWorker {
                failed: old(self).failed || !succeeded,
                ..*old(self)
            }),
    {
        if !succeeded {
            self.failed = true;
        }
    }
}

/// How a worker ended: whether it was there, whether it was done in time, whether its thread could
/// be joined, and whether its session was cancelled.
#[derive(Debug, Clone, Copy, PartialEq, Eq, Structural)]
pub struct WorkerEnd {
    pub had_worker: bool,
    pub finished_in_time: bool,
    pub joined: bool,
    pub cancel_completed: bool,
    pub cancel_succeeded: bool,
}

/// Whether a worker ended cleanly: its session was cancelled, and a thread that was there was done
/// in time and joined.
pub fn shutdown_is_clean(end: WorkerEnd) -> (clean: bool)
    ensures
        clean == (end.cancel_completed && end.cancel_succeeded && (end.had_worker ==> (
        end.finished_in_time && end.joined))),
{
    if !end.had_worker {
        return end.cancel_completed && end.cancel_succeeded;
    }
    if !end.finished_in_time {
        return false;
    }
    end.joined && end.cancel_completed && end.cancel_succeeded
}

/// What became of a request to a worker.
pub enum ControlReply {
    /// The request could not be sent.
    NotSent(String),
    /// No answer came.
    NotAnswered(String),
    /// The worker's answer.
    Answered(Result<(u32, u64), String>),
}

/// The generation and the epoch of the source that a request brought, or at which step it failed.
pub fn control_result(reply: ControlReply) -> (result: Result<(u32, u64), CaptureError>)
    ensures
        match reply {
            ControlReply::Answered(Ok(continuity)) => result == Ok::<
                (u32, u64),
                CaptureError,
            >(continuity),
            ControlReply::Answered(Err(reason)) => result matches Err(error) && is_capture_error(
                error,
                "apply PocketStation microphone control"@,
                reason@,
            ),
            ControlReply::NotAnswered(reason) => result matches Err(error) && is_capture_error(
                error,
                "wait for PocketStation microphone control"@,
                reason@,
            ),
            ControlReply::NotSent(reason) => result matches Err(error) && is_capture_error(
                error,
                "send PocketStation microphone control"@,
                reason@,
            ),
        },
{
    match reply {
        ControlReply::Answered(Ok(continuity)) => Ok(continuity),
        ControlReply::Answered(Err(reason)) => Err(
            capture_error("apply PocketStation microphone control", reason.as_str()),
        ),
        ControlReply::NotAnswered(reason) => Err(
            capture_error("wait for PocketStation microphone control", reason.as_str()),
        ),
        ControlReply::NotSent(reason) => Err(
            capture_error("send PocketStation microphone control", reason.as_str()),
        ),
    }
}

} // verus!
