//! What a microphone's activity and signal measurements say of it. A level in dBFS is the bit
//! pattern of its 64-bit float.

use vstd::prelude::*;
use crate::lineage::saturated;
use pocketstation::{
    SessionSourceActivityObservations, SessionSourceActivityPolicy, SessionSourceActivityState,
};
use std::time::Duration;

verus! {

/// How long the first frame may take.
pub const FIRST_FRAME_TIMEOUT_NS: u64 = 2_000_000_000;

/// How long the next frame may take.
pub const STALL_TIMEOUT_NS: u64 = 2_000_000_000;

/// How long a signal may be unusably low before the user is warned.
pub const UNUSABLE_LOW_SIGNAL_TIMEOUT_NS: u64 = 1_500_000_000;

/// The bits of -70 dBFS, above which a peak is usable.
pub const UNUSABLE_LOW_SIGNAL_MAXIMUM_PEAK_BITS: u64 = 0xC051_8000_0000_0000;

/// The bits of -80 dBFS, above which a mean level is usable.
pub const UNUSABLE_LOW_SIGNAL_MAXIMUM_RMS_BITS: u64 = 0xC054_0000_0000_0000;

/// The bits of negative infinity. Beyond them there are only values that are no number.
pub const NEGATIVE_INFINITY_BITS: u64 = 0xFFF0_0000_0000_0000;

/// Whether frames of a source arrive.
#[derive(Debug, Clone, Copy, PartialEq, Eq, Structural)]
pub enum ActivityState {
    AwaitingFirstFrame,
    Active,
    FirstFrameTimedOut,
    Stalled,
}

/// What the samples of a source measure up to.
#[derive(Debug, Clone, Copy, PartialEq, Eq, Structural)]
pub enum SignalState {
    NoSamplesObserved,
    ExactDigitalZeroPending,
    SustainedExactDigitalZero,
    BelowCallerThresholds,
    MeetsCallerThresholds,
    NonFiniteSamplesObserved,
}

/// What is said of a microphone.
#[derive(Debug, Clone, Copy, PartialEq, Eq, Structural)]
pub enum MicrophoneSignalState {
    AwaitingFirstFrame,
    Active,
    NoFrames,
    Stalled,
    ExactDigitalZeroPending,
    DigitallySilent,
    BelowThresholds,
    SustainedLowSignal,
    SignalObserved,
    NonFiniteSamples,
    SourceFailed,
}

/// When frames of a source arrived, on one clock.
#[derive(Debug, Clone, Copy, PartialEq, Eq, Structural)]
pub struct ActivityObservations {
    pub session_started_at_ns: u64,
    pub observed_at_ns: u64,
    pub first_frame_received_at_ns: Option<u64>,
    pub latest_frame_received_at_ns: Option<u64>,
    pub frames_received_total: u64,
}

/// How long a source may take.
#[derive(Debug, Clone, Copy, PartialEq, Eq, Structural)]
pub struct ActivityPolicy {
    pub first_frame_timeout_ns: u64,
    pub stall_timeout_ns: u64,
}

/// The policy for a microphone.
pub fn microphone_activity_policy() -> (policy: ActivityPolicy)
    ensures
        policy.first_frame_timeout_ns == FIRST_FRAME_TIMEOUT_NS == 2_000_000_000,
        policy.stall_timeout_ns == STALL_TIMEOUT_NS == 2_000_000_000,
{
    ActivityPolicy {
        first_frame_timeout_ns: FIRST_FRAME_TIMEOUT_NS,
        stall_timeout_ns: STALL_TIMEOUT_NS,
    }
}

/// Whether frames arrive: from the age of the latest or, without one, of the session.
pub open spec fn activity_of(
    activity: ActivityObservations,
    policy: ActivityPolicy,
) -> ActivityState {
    match activity.latest_frame_received_at_ns {
        None => if saturated(activity.observed_at_ns - activity.session_started_at_ns)
            >= policy.first_frame_timeout_ns {
            ActivityState::FirstFrameTimedOut
        } else {
            ActivityState::AwaitingFirstFrame
        },
        Some(latest) => if saturated(activity.observed_at_ns - latest) >= policy.stall_timeout_ns {
            ActivityState::Stalled
        } else {
            ActivityState::Active
        },
    }
}

/// `SessionSourceActivityObservations::evaluate` with a policy of the two timeouts, which must not
/// be zero: without a frame the age of the session is held against the first timeout, and with one
/// the age of the latest frame against the second.
#[verifier::external_body]
fn evaluate_activity(activity: ActivityObservations, policy: ActivityPolicy) -> (state:
    ActivityState)
    requires
        policy.first_frame_timeout_ns > 0,
        policy.stall_timeout_ns > 0,
    ensures
        state == activity_of(activity, policy),
{
    let first = Duration::from_nanos(policy.first_frame_timeout_ns);
    let stall = Duration::from_nanos(policy.stall_timeout_ns);
    let seen = SessionSourceActivityObservations {
        session_started_at_ns: activity.session_started_at_ns,
        observed_at_ns: activity.observed_at_ns,
        first_frame_received_at_ns: activity.first_frame_received_at_ns,
        latest_frame_received_at_ns: activity.latest_frame_received_at_ns,
        frames_received_total: activity.frames_received_total,
    };
    match seen.evaluate(SessionSourceActivityPolicy::new(first, stall).unwrap()).state {
        SessionSourceActivityState::AwaitingFirstFrame => ActivityState::AwaitingFirstFrame,
        SessionSourceActivityState::Active => ActivityState::Active,
        SessionSourceActivityState::FirstFrameTimedOut => ActivityState::FirstFrameTimedOut,
        SessionSourceActivityState::Stalled => ActivityState::Stalled,
    }
}

/// What a signal measures up to, with its levels where there are any.
#[derive(Debug, Clone, Copy, PartialEq, Eq, Structural)]
pub struct SignalEvaluation {
    pub state: SignalState,
    pub peak_dbfs_bits: Option<u64>,
    pub rms_dbfs_bits: Option<u64>,
}

/// Whether a level is a number at or below the negative one whose bits are `most`: the bits of
/// negative numbers grow as the numbers fall.
pub open spec fn is_at_most(level: Option<u64>, most: u64) -> bool {
    level matches Some(bits) && most <= bits <= NEGATIVE_INFINITY_BITS
}

/// Whether a signal is too low to be of use: its peak and its mean level both are.
pub open spec fn is_unusably_low(peak: Option<u64>, rms: Option<u64>) -> bool {
    is_at_most(peak, UNUSABLE_LOW_SIGNAL_MAXIMUM_PEAK_BITS) && is_at_most(
        rms,
        UNUSABLE_LOW_SIGNAL_MAXIMUM_RMS_BITS,
    )
}

fn at_most(level: Option<u64>, most: u64) -> (yes: bool)
    ensures
        yes == is_at_most(level, most),
{
    match level {
        Some(bits) => most <= bits && bits <= NEGATIVE_INFINITY_BITS,
        None => false,
    }
}

/// Since when a signal has been unusably low, and of which source.
#[derive(Debug, Clone, Copy, PartialEq, Eq, Structural)]
pub struct LowSignalTracker {
    pub started_at_ns: Option<u64>,
    pub source_generation: u32,
    pub discontinuity_epoch: u64,
}

impl Default for LowSignalTracker {
    /// Nothing observed.
    fn default() -> (tracker: Self)
        ensures
            tracker == (LowSignalTracker {
                started_at_ns: None,
                source_generation: 0,
                discontinuity_epoch: 0,
            }),
    {
        LowSignalTracker { started_at_ns: None, source_generation: 0, discontinuity_epoch: 0 }
    }
}

/// A tracker after one more observation: what is not low, and another source, starts it over.
pub open spec fn observed_by(
    tracker: LowSignalTracker,
    observed_at_ns: u64,
    source_generation: u32,
    discontinuity_epoch: u64,
    low: bool,
) -> LowSignalTracker {
    let same_source = tracker.source_generation == source_generation
        && tracker.discontinuity_epoch == discontinuity_epoch;
    LowSignalTracker {
        started_at_ns: if !low {
            None
        } else if same_source && tracker.started_at_ns is Some {
            tracker.started_at_ns
        } else {
            Some(observed_at_ns)
        },
        source_generation,
        discontinuity_epoch,
    }
}

/// Whether a tracker has seen an unusably low signal for the whole timeout.
pub open spec fn is_sustained(tracker: LowSignalTracker, observed_at_ns: u64) -> bool {
    tracker.started_at_ns matches Some(started) && saturated(observed_at_ns - started)
        >= UNUSABLE_LOW_SIGNAL_TIMEOUT_NS
}

impl LowSignalTracker {
    /// Takes in an observation, and says whether the signal has been unusably low for the whole
    /// timeout.
    pub fn observe(
        &mut self,
        observed_at_ns: u64,
        source_generation: u32,
        discontinuity_epoch: u64,
        peak_dbfs_bits: Option<u64>,
        rms_dbfs_bits: Option<u64>,
    ) -> (sustained: bool)
        ensures
            *final(self) == observed_by(
                *old(self),
                observed_at_ns,
                source_generation,
                discontinuity_epoch,
                is_unusably_low(peak_dbfs_bits, rms_dbfs_bits),
            ),
            sustained == is_sustained(*final(self), observed_at_ns),
    {
        let source_changed = self.source_generation != source_generation
            || self.discontinuity_epoch != discontinuity_epoch;
        let unusably_low = at_most(peak_dbfs_bits, UNUSABLE_LOW_SIGNAL_MAXIMUM_PEAK_BITS)
            && at_most(rms_dbfs_bits, UNUSABLE_LOW_SIGNAL_MAXIMUM_RMS_BITS);
        if source_changed || !unusably_low {
            self.started_at_ns = None;
            self.source_generation = source_generation;
            self.discontinuity_epoch = discontinuity_epoch;
        }
        if !unusably_low {
            return false;
        }
        let started_at_ns: u64 = match self.started_at_ns {
            Some(started) => started,
            None => observed_at_ns,
        };
        self.started_at_ns = Some(started_at_ns);
        observed_at_ns.saturating_sub(started_at_ns) >= UNUSABLE_LOW_SIGNAL_TIMEOUT_NS
    }
}

/// What is said of a microphone whose source has not failed.
pub open spec fn classified(
    activity: Option<ActivityState>,
    signal: Option<SignalState>,
    sustained_low_signal: bool,
) -> MicrophoneSignalState {
    match activity {
        None => MicrophoneSignalState::AwaitingFirstFrame,
        Some(ActivityState::AwaitingFirstFrame) => MicrophoneSignalState::AwaitingFirstFrame,
        Some(ActivityState::FirstFrameTimedOut) => MicrophoneSignalState::NoFrames,
        Some(ActivityState::Stalled) => MicrophoneSignalState::Stalled,
        Some(ActivityState::Active) => match signal {
            None => MicrophoneSignalState::Active,
            Some(SignalState::NoSamplesObserved) => MicrophoneSignalState::Active,
            Some(SignalState::ExactDigitalZeroPending) => {
                MicrophoneSignalState::ExactDigitalZeroPending
            },
            Some(SignalState::SustainedExactDigitalZero) => MicrophoneSignalState::DigitallySilent,
            Some(SignalState::BelowCallerThresholds) => if sustained_low_signal {
                MicrophoneSignalState::SustainedLowSignal
            } else {
                MicrophoneSignalState::BelowThresholds
            },
            Some(SignalState::MeetsCallerThresholds) => MicrophoneSignalState::SignalObserved,
            Some(SignalState::NonFiniteSamplesObserved) => MicrophoneSignalState::NonFiniteSamples,
        },
    }
}

/// Says what is to be said of a microphone whose source has not failed.
pub fn classify_evaluations(
    activity: Option<ActivityState>,
    signal: Option<SignalState>,
    sustained_low_signal: bool,
) -> (state: MicrophoneSignalState)
    ensures
        state == classified(activity, signal, sustained_low_signal),
{
    match activity {
        None => {
            return MicrophoneSignalState::AwaitingFirstFrame;
        },
        Some(ActivityState::AwaitingFirstFrame) => {
            return MicrophoneSignalState::AwaitingFirstFrame;
        },
        Some(ActivityState::FirstFrameTimedOut) => {
            return MicrophoneSignalState::NoFrames;
        },
        Some(ActivityState::Stalled) => {
            return MicrophoneSignalState::Stalled;
        },
        Some(ActivityState::Active) => {},
    }
    match signal {
        None => MicrophoneSignalState::Active,
        Some(SignalState::NoSamplesObserved) => MicrophoneSignalState::Active,
        Some(SignalState::ExactDigitalZeroPending) => {
            MicrophoneSignalState::ExactDigitalZeroPending
        },
        Some(SignalState::SustainedExactDigitalZero) => MicrophoneSignalState::DigitallySilent,
        Some(SignalState::BelowCallerThresholds) => {
            if sustained_low_signal {
                MicrophoneSignalState::SustainedLowSignal
            } else {
                MicrophoneSignalState::BelowThresholds
            }
        },
        Some(SignalState::MeetsCallerThresholds) => MicrophoneSignalState::SignalObserved,
        Some(SignalState::NonFiniteSamplesObserved) => MicrophoneSignalState::NonFiniteSamples,
    }
}

/// The tracker after an evaluation: only a signal below the thresholds is tracked.
pub open spec fn tracker_after(
    tracker: LowSignalTracker,
    evaluation: Option<SignalEvaluation>,
    observed_at_ns: u64,
    source_generation: u32,
    discontinuity_epoch: u64,
    source_failed: bool,
) -> LowSignalTracker {
    match evaluation {
        Some(evaluation) if !source_failed && evaluation.state
            == SignalState::BelowCallerThresholds => observed_by(
            tracker,
            observed_at_ns,
            source_generation,
            discontinuity_epoch,
            is_unusably_low(evaluation.peak_dbfs_bits, evaluation.rms_dbfs_bits),
        ),
        _ => LowSignalTracker { started_at_ns: None, ..tracker },
    }
}

/// What is said of a microphone, with its tracker after the evaluation.
pub open spec fn state_of(
    activity: Option<ActivityState>,
    evaluation: Option<SignalEvaluation>,
    after: LowSignalTracker,
    observed_at_ns: u64,
    source_failed: bool,
) -> MicrophoneSignalState {
    if source_failed {
        MicrophoneSignalState::SourceFailed
    } else {
        classified(
            activity,
            match evaluation {
                Some(evaluation) => Some(evaluation.state),
                None => None,
            },
            is_sustained(after, observed_at_ns),
        )
    }
}

/// Says what is to be said of a microphone, and keeps track of a low signal.
pub fn evaluate_state(
    activity_state: Option<ActivityState>,
    signal_evaluation: Option<SignalEvaluation>,
    observed_at_ns: u64,
    low_signal_tracker: &mut LowSignalTracker,
    source_generation: u32,
    discontinuity_epoch: u64,
    source_failed: bool,
) -> (state: MicrophoneSignalState)
    ensures
        *final(low_signal_tracker) == tracker_after(
            *old(low_signal_tracker),
            signal_evaluation,
            observed_at_ns,
            source_generation,
            discontinuity_epoch,
            source_failed,
        ),
        state == state_of(
            activity_state,
            signal_evaluation,
            *final(low_signal_tracker),
            observed_at_ns,
            source_failed,
        ),
{
    if source_failed {
        low_signal_tracker.started_at_ns = None;
        return MicrophoneSignalState::SourceFailed;
    }
    match signal_evaluation {
        None => {
            low_signal_tracker.started_at_ns = None;
            classify_evaluations(activity_state, None, false)
        },
        Some(evaluation) => {
            if evaluation.state == SignalState::BelowCallerThresholds {
                let sustained = low_signal_tracker.observe(
                    observed_at_ns,
                    source_generation,
                    discontinuity_epoch,
                    evaluation.peak_dbfs_bits,
                    evaluation.rms_dbfs_bits,
                );
                classify_evaluations(activity_state, Some(evaluation.state), sustained)
            } else {
                low_signal_tracker.started_at_ns = None;
                classify_evaluations(activity_state, Some(evaluation.state), false)
            }
        },
    }
}

/// A signal that was evaluated, and when.
#[derive(Debug, Clone, Copy, PartialEq, Eq, Structural)]
pub struct SignalReading {
    pub observed_at_ns: u64,
    pub evaluation: SignalEvaluation,
}

/// When a microphone was observed: with its signal or, without one, with its activity.
pub open spec fn observation_time(
    activity: Option<ActivityObservations>,
    signal: Option<SignalReading>,
) -> u64 {
    match signal {
        Some(signal) => signal.observed_at_ns,
        None => match activity {
            Some(activity) => activity.observed_at_ns,
            None => 0,
        },
    }
}

/// The evaluation of a signal that was read.
pub open spec fn evaluation_of(signal: Option<SignalReading>) -> Option<SignalEvaluation> {
    match signal {
        Some(signal) => Some(signal.evaluation),
        None => None,
    }
}

/// The activity state of observations.
pub open spec fn activity_state_of(
    activity: Option<ActivityObservations>,
    policy: ActivityPolicy,
) -> Option<ActivityState> {
    match activity {
        Some(activity) => Some(activity_of(activity, policy)),
        None => None,
    }
}

/// Says what observations say of a microphone, and keeps track of a low signal.
pub fn evaluate_observations(
    activity: Option<ActivityObservations>,
    signal: Option<SignalReading>,
    activity_policy: ActivityPolicy,
    low_signal_tracker: &mut LowSignalTracker,
    source_generation: u32,
    discontinuity_epoch: u64,
    source_failed: bool,
) -> (state: MicrophoneSignalState)
    requires
        activity_policy.first_frame_timeout_ns > 0,
        activity_policy.stall_timeout_ns > 0,
    ensures
        *final(low_signal_tracker) == tracker_after(
            *old(low_signal_tracker),
            evaluation_of(signal),
            observation_time(activity, signal),
            source_generation,
            discontinuity_epoch,
            source_failed,
        ),
        state == state_of(
            activity_state_of(activity, activity_policy),
            evaluation_of(signal),
            *final(low_signal_tracker),
            observation_time(activity, signal),
            source_failed,
        ),
{
    let activity_state = match activity {
        Some(activity) => Some(evaluate_activity(activity, activity_policy)),
        None => None,
    };
    let evaluation = match signal {
        Some(signal) => Some(signal.evaluation),
        None => None,
    };
    let observed_at_ns: u64 = match signal {
        Some(signal) => signal.observed_at_ns,
        None => match activity {
            Some(activity) => activity.observed_at_ns,
            None => 0,
        },
    };
    evaluate_state(
        activity_state,
        evaluation,
        observed_at_ns,
        low_signal_tracker,
        source_generation,
        discontinuity_epoch,
        source_failed,
    )
}

/// A low signal is sustained only once it has been observed as low, of one source, since the whole
/// timeout ago.
pub proof fn sustained_signals_were_low_throughout(
    tracker: LowSignalTracker,
    observed_at_ns: u64,
    source_generation: u32,
    discontinuity_epoch: u64,
    low: bool,
)
    requires
        is_sustained(
            observed_by(tracker, observed_at_ns, source_generation, discontinuity_epoch, low),
            observed_at_ns,
        ),
    ensures
        low,
        tracker.source_generation == source_generation,
        tracker.discontinuity_epoch == discontinuity_epoch,
        tracker.started_at_ns matches Some(started) && started + UNUSABLE_LOW_SIGNAL_TIMEOUT_NS
            <= observed_at_ns,
{
}

/// A source that failed is said to have failed, whatever else was observed.
pub proof fn failure_is_never_silence(
    activity: Option<ActivityState>,
    evaluation: Option<SignalEvaluation>,
    after: LowSignalTracker,
    observed_at_ns: u64,
)
    ensures
        state_of(activity, evaluation, after, observed_at_ns, true)
            == MicrophoneSignalState::SourceFailed,
        state_of(activity, evaluation, after, observed_at_ns, false)
            != MicrophoneSignalState::SourceFailed,
{
}

} // verus!
