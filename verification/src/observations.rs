//! What is observed of a microphone, across the physical sources that it is attached to.

use vstd::prelude::*;
use crate::lineage::saturated;
use crate::signal::{
    activity_state_of, evaluate_observations, evaluation_of, observation_time, state_of,
    tracker_after, ActivityObservations, ActivityPolicy, LowSignalTracker, MicrophoneSignalState,
    SignalReading,
};

verus! {

/// How a device represents a sample.
#[derive(Debug, Clone, Copy, PartialEq, Eq, Structural)]
pub enum SampleRepresentation {
    SignedInteger8,
    SignedInteger16,
    SignedInteger24,
    SignedInteger32,
    SignedInteger64,
    UnsignedInteger8,
    UnsignedInteger16,
    UnsignedInteger24,
    UnsignedInteger32,
    UnsignedInteger64,
    Float32,
    Float64,
}

/// The format that a device was opened in.
#[derive(Debug, Clone, Copy, PartialEq, Eq, Structural)]
pub struct NativeFormat {
    pub sample_rate_hz: u32,
    pub channel_count: u16,
    pub sample_representation: SampleRepresentation,
}

/// What was last observed of a microphone.
#[derive(Debug, Clone, Copy, PartialEq, Eq, Structural)]
pub struct MicrophoneObservations {
    pub state: MicrophoneSignalState,
    pub native_format: Option<NativeFormat>,
    pub activity: Option<ActivityObservations>,
    pub signal: Option<SignalReading>,
    pub source_generation: u32,
    pub discontinuity_epoch: u64,
}

impl Default for MicrophoneObservations {
    /// Nothing observed of the first source.
    fn default() -> (observations: Self)
        ensures
            observations == (MicrophoneObservations {
                state: MicrophoneSignalState::AwaitingFirstFrame,
                native_format: None,
                activity: None,
                signal: None,
                source_generation: 1,
                discontinuity_epoch: 0,
            }),
    {
        MicrophoneObservations {
            state: MicrophoneSignalState::AwaitingFirstFrame,
            native_format: None,
            activity: None,
            signal: None,
            source_generation: 1,
            discontinuity_epoch: 0,
        }
    }
}

/// The states that a microphone is recovered from. Too low a signal is not one of them.
pub open spec fn calls_for_recovery(state: MicrophoneSignalState) -> bool {
    ||| state == MicrophoneSignalState::NoFrames
    ||| state == MicrophoneSignalState::Stalled
    ||| state == MicrophoneSignalState::DigitallySilent
    ||| state == MicrophoneSignalState::NonFiniteSamples
    ||| state == MicrophoneSignalState::SourceFailed
}

impl MicrophoneObservations {
    /// Whether the microphone is to be recovered.
    pub fn requires_recovery(self) -> (yes: bool)
        ensures
            yes == calls_for_recovery(self.state),
            yes == (self.state == MicrophoneSignalState::NoFrames || self.state
                == MicrophoneSignalState::Stalled || self.state
                == MicrophoneSignalState::DigitallySilent || self.state
                == MicrophoneSignalState::NonFiniteSamples || self.state
                == MicrophoneSignalState::SourceFailed),
    {
        match self.state {
            MicrophoneSignalState::NoFrames => true,
            MicrophoneSignalState::Stalled => true,
            MicrophoneSignalState::DigitallySilent => true,
            MicrophoneSignalState::NonFiniteSamples => true,
            MicrophoneSignalState::SourceFailed => true,
            _ => false,
        }
    }

    /// Whether the microphone is known to have recovered.
    pub fn confirms_recovery(self) -> (yes: bool)
        ensures
            yes == (self.state == MicrophoneSignalState::SignalObserved),
    {
        self.state == MicrophoneSignalState::SignalObserved
    }
}

/// Nothing that confirms a recovery calls for one.
pub proof fn recovered_microphones_need_no_recovery(state: MicrophoneSignalState)
    ensures
        state == MicrophoneSignalState::SignalObserved ==> !calls_for_recovery(state),
        state == MicrophoneSignalState::SustainedLowSignal ==> !calls_for_recovery(state),
{
}

/// Which source a window of measurements is of, and how many samples were measured so far.
#[derive(Debug, Clone, Copy, PartialEq, Eq, Structural)]
pub struct SignalWindowContinuity {
    pub source_generation: u32,
    pub discontinuity_epoch: u64,
    pub samples_observed_total: u64,
}

/// What was counted when the present source was attached.
#[derive(Debug, Clone, Copy)]
pub struct ObservationContinuityTracker {
    pub continuity: Option<(u32, u64)>,
    pub started_at_ns: u64,
    pub activity_frames_baseline: u64,
    pub signal_samples_baseline: u64,
}

impl Default for ObservationContinuityTracker {
    /// No source attached.
    fn default() -> (tracker: Self)
        ensures
            tracker == (ObservationContinuityTracker {
                continuity: None,
                started_at_ns: 0,
                activity_frames_baseline: 0,
                signal_samples_baseline: 0,
            }),
    {
        ObservationContinuityTracker {
            continuity: None,
            started_at_ns: 0,
            activity_frames_baseline: 0,
            signal_samples_baseline: 0,
        }
    }
}

/// When an activity was observed; zero where there is none.
pub open spec fn observed_at(activity: Option<ActivityObservations>) -> u64 {
    match activity {
        Some(activity) => activity.observed_at_ns,
        None => 0,
    }
}

/// A tracker once the present source is attached. The first source counts from the start of the
/// session; any other counts on from what was counted before it.
pub open spec fn attached(
    tracker: ObservationContinuityTracker,
    activity: Option<ActivityObservations>,
    signal: Option<SignalWindowContinuity>,
    source_generation: u32,
    discontinuity_epoch: u64,
) -> ObservationContinuityTracker {
    let continuity = Some((source_generation, discontinuity_epoch));
    let current = if tracker.continuity == continuity {
        tracker
    } else if tracker.continuity is None {
        ObservationContinuityTracker {
            continuity,
            started_at_ns: match activity {
                Some(activity) => activity.session_started_at_ns,
                None => 0,
            },
            activity_frames_baseline: 0,
            signal_samples_baseline: 0,
        }
    } else {
        ObservationContinuityTracker {
            continuity,
            started_at_ns: observed_at(activity),
            activity_frames_baseline: match activity {
                Some(activity) => activity.frames_received_total,
                None => 0,
            },
            signal_samples_baseline: match signal {
                Some(signal) => signal.samples_observed_total,
                None => 0,
            },
        }
    };
    if current.started_at_ns == 0 {
        ObservationContinuityTracker { started_at_ns: observed_at(activity), ..current }
    } else {
        current
    }
}

/// Whether a signal was measured on the present source.
pub open spec fn is_current_signal(
    tracker: ObservationContinuityTracker,
    signal: Option<SignalWindowContinuity>,
    source_generation: u32,
    discontinuity_epoch: u64,
) -> bool {
    signal matches Some(signal) && signal.source_generation == source_generation
        && signal.discontinuity_epoch == discontinuity_epoch && signal.samples_observed_total
        > tracker.signal_samples_baseline
}

/// The activity of the present source alone: frames count only since it was attached, and only
/// once a signal of it was measured.
pub open spec fn projected(
    tracker: ObservationContinuityTracker,
    activity: Option<ActivityObservations>,
    current_signal: bool,
) -> Option<ActivityObservations> {
    match activity {
        None => None,
        Some(activity) => {
            let frames = saturated(
                activity.frames_received_total - tracker.activity_frames_baseline,
            );
            let current_frame = current_signal && frames > 0;
            let latest = if current_frame {
                activity.latest_frame_received_at_ns
            } else {
                None
            };
            Some(
                ActivityObservations {
                    session_started_at_ns: tracker.started_at_ns,
                    observed_at_ns: activity.observed_at_ns,
                    first_frame_received_at_ns: latest,
                    latest_frame_received_at_ns: latest,
                    frames_received_total: if current_frame {
                        frames
                    } else {
                        0
                    },
                },
            )
        },
    }
}

fn same_continuity(tracker: &ObservationContinuityTracker, generation: u32, epoch: u64) -> (same:
    bool)
    ensures
        same == (tracker.continuity == Some((generation, epoch))),
{
    match tracker.continuity {
        Some((known_generation, known_epoch)) => known_generation == generation && known_epoch
            == epoch,
        None => false,
    }
}

impl ObservationContinuityTracker {
    /// Tells the activity of the present source from that of the sources before it, and whether a
    /// signal of it was measured.
    pub fn project_activity(
        &mut self,
        activity: Option<ActivityObservations>,
        signal: Option<SignalWindowContinuity>,
        source_generation: u32,
        discontinuity_epoch: u64,
    ) -> (result: (Option<ActivityObservations>, bool))
        ensures
            *final(self) == attached(
                *old(self),
                activity,
                signal,
                source_generation,
                discontinuity_epoch,
            ),
            result.1 == is_current_signal(
                *final(self),
                signal,
                source_generation,
                discontinuity_epoch,
            ),
            result.0 == projected(*final(self), activity, result.1),
    {
        if !same_continuity(self, source_generation, discontinuity_epoch) {
            let first_attachment = self.continuity.is_none();
            self.continuity = Some((source_generation, discontinuity_epoch));
            self.started_at_ns = match activity {
                Some(entry) => if first_attachment {
                    entry.session_started_at_ns
                } else {
                    entry.observed_at_ns
                },
                None => 0,
            };
            self.activity_frames_baseline = match activity {
                Some(entry) => if first_attachment {
                    0
                } else {
                    entry.frames_received_total
                },
                None => 0,
            };
            self.signal_samples_baseline = match signal {
                Some(entry) => if first_attachment {
                    0
                } else {
                    entry.samples_observed_total
                },
                None => 0,
            };
        }
        if self.started_at_ns == 0 {
            self.started_at_ns = match activity {
                Some(entry) => entry.observed_at_ns,
                None => 0,
            };
        }
        let current_signal = match signal {
            Some(entry) => entry.source_generation == source_generation
                && entry.discontinuity_epoch == discontinuity_epoch && entry.samples_observed_total
                > self.signal_samples_baseline,
            None => false,
        };
        let projected_activity = match activity {
            Some(entry) => {
                let frames: u64 = entry.frames_received_total.saturating_sub(
                    self.activity_frames_baseline,
                );
                let current_frame = current_signal && frames > 0;
                let latest = if current_frame {
                    entry.latest_frame_received_at_ns
                } else {
                    None
                };
                let frames_received_total: u64 = if current_frame {
                    frames
                } else {
                    0
                };
                Some(
                    ActivityObservations {
                        session_started_at_ns: self.started_at_ns,
                        observed_at_ns: entry.observed_at_ns,
                        first_frame_received_at_ns: latest,
                        latest_frame_received_at_ns: latest,
                        frames_received_total,
                    },
                )
            },
            None => None,
        };
        (projected_activity, current_signal)
    }
}

/// What a session measured of one of its sources.
#[derive(Debug, Clone, Copy)]
pub struct SourceSnapshot {
    pub stem_id: u64,
    pub activity: Option<ActivityObservations>,
    /// The signal, with the window it was measured in.
    pub signal: Option<(SignalWindowContinuity, SignalReading)>,
    /// The generation and the epoch of the source that replaced the first one.
    pub replacement: Option<(u32, u64)>,
    pub native_format: Option<NativeFormat>,
}

/// The first of the sources that has a stem.
pub open spec fn source_of(sources: Seq<SourceSnapshot>, stem_id: u64) -> Option<SourceSnapshot>
    decreases sources.len(),
{
    if sources.len() == 0 {
        None
    } else if sources[0].stem_id == stem_id {
        Some(sources[0])
    } else {
        source_of(sources.drop_first(), stem_id)
    }
}

/// Finds the first of the sources that has a stem.
pub fn find_source(sources: &Vec<SourceSnapshot>, stem_id: u64) -> (found: Option<SourceSnapshot>)
    ensures
        found == source_of(sources@, stem_id),
{
    let mut i: usize = 0;
    assert(sources@.skip(0) =~= sources@);
    while i < sources.len()
        invariant
            i <= sources@.len(),
            source_of(sources@, stem_id) == source_of(sources@.skip(i as int), stem_id),
        decreases sources@.len() - i,
    {
        assert(sources@.skip(i as int)[0] == sources@[i as int]);
        assert(sources@.skip(i as int).drop_first() =~= sources@.skip(i + 1));
        if sources[i].stem_id == stem_id {
            return Some(sources[i]);
        }
        i = i + 1;
    }
    None
}

/// The generation of a source: the first has number one.
pub open spec fn generation_of(source: SourceSnapshot) -> u32 {
    match source.replacement {
        Some((generation, _)) => generation,
        None => 1,
    }
}

/// The discontinuity epoch of a source: the first has number zero.
pub open spec fn epoch_of(source: SourceSnapshot) -> u64 {
    match source.replacement {
        Some((_, epoch)) => epoch,
        None => 0,
    }
}

/// The window that a source's signal was measured in.
pub open spec fn window_of(source: SourceSnapshot) -> Option<SignalWindowContinuity> {
    match source.signal {
        Some((window, _)) => Some(window),
        None => None,
    }
}

/// What is observed of a source, with its trackers once it is attached and evaluated.
pub open spec fn observed(
    source: SourceSnapshot,
    continuity: ObservationContinuityTracker,
    low_signal: LowSignalTracker,
    policy: ActivityPolicy,
    source_failed: bool,
) -> MicrophoneObservations {
    let current = is_current_signal(
        continuity,
        window_of(source),
        generation_of(source),
        epoch_of(source),
    );
    let activity = projected(continuity, source.activity, current);
    let signal = current_reading(source, current);
    MicrophoneObservations {
        state: state_of(
            activity_state_of(activity, policy),
            evaluation_of(signal),
            low_signal,
            observation_time(activity, signal),
            source_failed,
        ),
        native_format: source.native_format,
        activity,
        signal,
        source_generation: generation_of(source),
        discontinuity_epoch: epoch_of(source),
    }
}

/// The reading of a signal that is current.
pub open spec fn current_reading(source: SourceSnapshot, current: bool) -> Option<SignalReading> {
    match source.signal {
        Some((_, reading)) if current => Some(reading),
        _ => None,
    }
}

/// Takes in what a session measured. Without a source for the stem nothing changes.
pub fn update_observations(
    sources: &Vec<SourceSnapshot>,
    stem_id: u64,
    activity_policy: ActivityPolicy,
    low_signal_tracker: &mut LowSignalTracker,
    observation_continuity: &mut ObservationContinuityTracker,
    source_failed: bool,
    observations: &mut MicrophoneObservations,
) -> (result: Option<MicrophoneObservations>)
    requires
        activity_policy.first_frame_timeout_ns > 0,
        activity_policy.stall_timeout_ns > 0,
    ensures
        match source_of(sources@, stem_id) {
            None => {
                &&& result is None
                &&& *final(low_signal_tracker) == *old(low_signal_tracker)
                &&& *final(observation_continuity) == *old(observation_continuity)
                &&& *final(observations) == *old(observations)
            },
            Some(source) => {
                let continuity = attached(
                    *old(observation_continuity),
                    source.activity,
                    window_of(source),
                    generation_of(source),
                    epoch_of(source),
                );
                let current = is_current_signal(
                    continuity,
                    window_of(source),
                    generation_of(source),
                    epoch_of(source),
                );
                let signal = current_reading(source, current);
                &&& *final(observation_continuity) == continuity
                &&& *final(low_signal_tracker) == tracker_after(
                    *old(low_signal_tracker),
                    evaluation_of(signal),
                    observation_time(projected(continuity, source.activity, current), signal),
                    generation_of(source),
                    epoch_of(source),
                    source_failed,
                )
                &&& *final(observations) == observed(
                    source,
                    continuity,
                    *final(low_signal_tracker),
                    activity_policy,
                    source_failed,
                )
                &&& result == Some(*final(observations))
            },
        },
{
    let source = match find_source(sources, stem_id) {
        Some(source) => source,
        None => {
            return None;
        },
    };
    let source_generation: u32 = match source.replacement {
        Some((generation, _)) => generation,
        None => 1,
    };
    let discontinuity_epoch: u64 = match source.replacement {
        Some((_, epoch)) => epoch,
        None => 0,
    };
    let window = match source.signal {
        Some((window, _)) => Some(window),
        None => None,
    };
    let (activity, current_signal) = observation_continuity.project_activity(
        source.activity,
        window,
        source_generation,
        discontinuity_epoch,
    );
    let signal = match source.signal {
        Some((_, reading)) => if current_signal {
            Some(reading)
        } else {
            None
        },
        None => None,
    };
    let state = evaluate_observations(
        activity,
        signal,
        activity_policy,
        low_signal_tracker,
        source_generation,
        discontinuity_epoch,
        source_failed,
    );
    *observations = MicrophoneObservations {
        state,
        native_format: source.native_format,
        activity,
        signal,
        source_generation,
        discontinuity_epoch,
    };
    Some(*observations)
}

/// A source that has just replaced another is never said to have a signal: what was measured of
/// the one before it does not count, until a frame of its own has been measured.
pub proof fn replacements_start_without_a_signal(
    tracker: ObservationContinuityTracker,
    source: SourceSnapshot,
    low_signal: LowSignalTracker,
    policy: ActivityPolicy,
    source_failed: bool,
)
    requires
        tracker.continuity is Some,
        tracker.continuity != Some((generation_of(source), epoch_of(source))),
    ensures
        ({
            let after = attached(
                tracker,
                source.activity,
                window_of(source),
                generation_of(source),
                epoch_of(source),
            );
            let now = observed(source, after, low_signal, policy, source_failed);
            &&& !is_current_signal(
                after,
                window_of(source),
                generation_of(source),
                epoch_of(source),
            )
            &&& now.signal is None
            &&& now.activity matches Some(activity) ==> activity.latest_frame_received_at_ns is None
            &&& now.state != MicrophoneSignalState::SignalObserved
            &&& now.state != MicrophoneSignalState::Active
        }),
{
}

/// A microphone is said to have a signal only where one was measured on the present source.
pub proof fn signals_are_of_the_present_source(
    source: SourceSnapshot,
    continuity: ObservationContinuityTracker,
    low_signal: LowSignalTracker,
    policy: ActivityPolicy,
    source_failed: bool,
)
    requires
        observed(source, continuity, low_signal, policy, source_failed).state
            == MicrophoneSignalState::SignalObserved,
    ensures
        !source_failed,
        window_of(source) matches Some(window) && window.source_generation == generation_of(source)
            && window.discontinuity_epoch == epoch_of(source),
{
}

} // verus!
