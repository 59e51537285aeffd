//! What holds of a microphone: which one is recorded, what is said of it, and what is kept of it.

use vstd::prelude::*;
use crate::observations::{
    attached, calls_for_recovery, current_reading, epoch_of, generation_of, is_current_signal,
    observed, observed_at, projected, source_of, window_of, MicrophoneObservations, NativeFormat,
    ObservationContinuityTracker, SampleRepresentation, SignalWindowContinuity, SourceSnapshot,
};
use crate::selection::{
    asked_for, explicit_request_of, is_asked_for, microphone_of, microphones_of, selection_problem,
    wanted_microphone, DefaultInput, DiscoveredSource, SelectionView, SourceKind,
};
use crate::signal::{
    activity_of, activity_state_of, classified, evaluation_of, is_sustained, is_unusably_low,
    observation_time, observed_by, state_of, tracker_after, ActivityObservations, ActivityPolicy,
    ActivityState, LowSignalTracker, MicrophoneSignalState, SignalEvaluation, SignalReading,
    SignalState, FIRST_FRAME_TIMEOUT_NS, STALL_TIMEOUT_NS,
};
use crate::text::{same_ignoring_ascii_case, trimmed_of};
use crate::worker::{
    after_notice, attachment_key, differs_by_audio, format_record, is_format_record, is_new_worker,
    is_to_report, json_fields, precedes_continuity, representation_word, IdentityView, JsonField,
    MicrophoneWorker, SessionNotice,
};

verus! {

/// A microphone is recovered where it never delivered, stopped delivering, delivers only digital
/// zero or what is no number, or its source failed; and in no other state.
pub proof fn recovery_is_called_for_by_five_states(state: MicrophoneSignalState)
    ensures
        calls_for_recovery(MicrophoneSignalState::NoFrames),
        calls_for_recovery(MicrophoneSignalState::Stalled),
        calls_for_recovery(MicrophoneSignalState::DigitallySilent),
        calls_for_recovery(MicrophoneSignalState::NonFiniteSamples),
        calls_for_recovery(MicrophoneSignalState::SourceFailed),
        !calls_for_recovery(MicrophoneSignalState::AwaitingFirstFrame),
        !calls_for_recovery(MicrophoneSignalState::Active),
        !calls_for_recovery(MicrophoneSignalState::ExactDigitalZeroPending),
        !calls_for_recovery(MicrophoneSignalState::BelowThresholds),
        !calls_for_recovery(MicrophoneSignalState::SustainedLowSignal),
        !calls_for_recovery(MicrophoneSignalState::SignalObserved),
        calls_for_recovery(state) ==> state != MicrophoneSignalState::SignalObserved && state
            != MicrophoneSignalState::Active,
{
}

/// A microphone that has delivered nothing for two seconds since its session began, or since its
/// latest frame, calls for recovery, whatever was measured of its signal.
pub proof fn two_seconds_without_a_frame_call_for_recovery(
    activity: ActivityObservations,
    evaluation: Option<SignalEvaluation>,
    after: LowSignalTracker,
    observed_at_ns: u64,
)
    requires
        match activity.latest_frame_received_at_ns {
            Some(latest) => activity.observed_at_ns >= latest + 2_000_000_000,
            None => activity.observed_at_ns >= activity.session_started_at_ns + 2_000_000_000,
        },
    ensures
        ({
            let policy = ActivityPolicy {
                first_frame_timeout_ns: FIRST_FRAME_TIMEOUT_NS,
                stall_timeout_ns: STALL_TIMEOUT_NS,
            };
            let state = state_of(
                activity_state_of(Some(activity), policy),
                evaluation,
                after,
                observed_at_ns,
                false,
            );
            &&& calls_for_recovery(state)
            &&& state == if activity.latest_frame_received_at_ns is Some {
                MicrophoneSignalState::Stalled
            } else {
                MicrophoneSignalState::NoFrames
            }
        }),
{
}

/// A microphone whose latest frame is younger than two seconds is not said to have stopped, and one
/// whose session is younger is still waited for.
pub proof fn younger_frames_are_activity(
    activity: ActivityObservations,
    evaluation: Option<SignalEvaluation>,
    after: LowSignalTracker,
    observed_at_ns: u64,
)
    requires
        match activity.latest_frame_received_at_ns {
            Some(latest) => activity.observed_at_ns < latest + 2_000_000_000,
            None => activity.observed_at_ns < activity.session_started_at_ns + 2_000_000_000,
        },
    ensures
        ({
            let policy = ActivityPolicy {
                first_frame_timeout_ns: FIRST_FRAME_TIMEOUT_NS,
                stall_timeout_ns: STALL_TIMEOUT_NS,
            };
            let state = state_of(
                activity_state_of(Some(activity), policy),
                evaluation,
                after,
                observed_at_ns,
                false,
            );
            &&& state != MicrophoneSignalState::Stalled
            &&& state != MicrophoneSignalState::NoFrames
            &&& activity.latest_frame_received_at_ns is None ==> state
                == MicrophoneSignalState::AwaitingFirstFrame
            &&& activity.latest_frame_received_at_ns is Some && evaluation is None ==> state
                == MicrophoneSignalState::Active
        }),
{
}

/// How long a source may take is held against the age of its latest frame or, without one, of its
/// session.
pub proof fn activity_is_judged_by_age(activity: ActivityObservations, policy: ActivityPolicy)
    requires
        policy.first_frame_timeout_ns > 0,
        policy.stall_timeout_ns > 0,
    ensures
        activity.latest_frame_received_at_ns matches Some(latest) ==> activity_of(activity, policy)
            == if activity.observed_at_ns - latest >= policy.stall_timeout_ns {
            ActivityState::Stalled
        } else {
            ActivityState::Active
        },
        activity.latest_frame_received_at_ns is None ==> activity_of(activity, policy)
            == if activity.observed_at_ns - activity.session_started_at_ns
            >= policy.first_frame_timeout_ns {
            ActivityState::FirstFrameTimedOut
        } else {
            ActivityState::AwaitingFirstFrame
        },
        activity_state_of(None, policy) is None,
        activity_state_of(Some(activity), policy) == Some(activity_of(activity, policy)),
{
}

/// A signal of an active microphone is reported by what it measures up to; one below the thresholds
/// is reported as sustained exactly where it was. Without activity no signal counts.
pub proof fn signals_count_while_frames_arrive(
    signal: Option<SignalState>,
    sustained: bool,
)
    ensures
        ({
            let active = Some(ActivityState::Active);
            &&& classified(active, None, sustained) == MicrophoneSignalState::Active
            &&& classified(active, Some(SignalState::NoSamplesObserved), sustained)
                == MicrophoneSignalState::Active
            &&& classified(active, Some(SignalState::ExactDigitalZeroPending), sustained)
                == MicrophoneSignalState::ExactDigitalZeroPending
            &&& classified(active, Some(SignalState::SustainedExactDigitalZero), sustained)
                == MicrophoneSignalState::DigitallySilent
            &&& classified(active, Some(SignalState::BelowCallerThresholds), true)
                == MicrophoneSignalState::SustainedLowSignal
            &&& classified(active, Some(SignalState::BelowCallerThresholds), false)
                == MicrophoneSignalState::BelowThresholds
            &&& classified(active, Some(SignalState::MeetsCallerThresholds), sustained)
                == MicrophoneSignalState::SignalObserved
            &&& classified(active, Some(SignalState::NonFiniteSamplesObserved), sustained)
                == MicrophoneSignalState::NonFiniteSamples
            &&& classified(None, signal, sustained) == MicrophoneSignalState::AwaitingFirstFrame
            &&& classified(Some(ActivityState::AwaitingFirstFrame), signal, sustained)
                == MicrophoneSignalState::AwaitingFirstFrame
            &&& classified(Some(ActivityState::FirstFrameTimedOut), signal, sustained)
                == MicrophoneSignalState::NoFrames
            &&& classified(Some(ActivityState::Stalled), signal, sustained)
                == MicrophoneSignalState::Stalled
        }),
{
}

/// A microphone is said to have a signal exactly where its source has not failed, frames arrive, and
/// the samples meet the thresholds.
pub proof fn signals_are_observed_while_active(
    activity: Option<ActivityState>,
    evaluation: Option<SignalEvaluation>,
    after: LowSignalTracker,
    observed_at_ns: u64,
    source_failed: bool,
)
    ensures
        (state_of(activity, evaluation, after, observed_at_ns, source_failed)
            == MicrophoneSignalState::SignalObserved) == (!source_failed && activity
            == Some(ActivityState::Active) && (evaluation matches Some(evaluation)
            && evaluation.state == SignalState::MeetsCallerThresholds)),
        (state_of(activity, evaluation, after, observed_at_ns, source_failed)
            == MicrophoneSignalState::SustainedLowSignal) == (!source_failed && activity
            == Some(ActivityState::Active) && (evaluation matches Some(evaluation)
            && evaluation.state == SignalState::BelowCallerThresholds) && (
        after.started_at_ns matches Some(started) && observed_at_ns >= started + 1_500_000_000)),
        source_failed ==> state_of(activity, evaluation, after, observed_at_ns, source_failed)
            == MicrophoneSignalState::SourceFailed,
{
}

/// A signal is unusably low exactly where its peak is at most -70 dBFS and its mean level at most
/// -80 dBFS, both by the bits of their floats: those of a negative number grow as it falls, up to
/// those of negative infinity.
pub proof fn low_signals_are_low_in_both_levels(peak: u64, rms: u64)
    ensures
        is_unusably_low(Some(peak), Some(rms)) == (0xC051_8000_0000_0000 <= peak
            <= 0xFFF0_0000_0000_0000 && 0xC054_0000_0000_0000 <= rms <= 0xFFF0_0000_0000_0000),
        !is_unusably_low(None, Some(rms)),
        !is_unusably_low(Some(peak), None),
        !is_unusably_low(None, None),
{
}

/// A tracker after low observations of one source at these times.
pub open spec fn after_low_run(
    tracker: LowSignalTracker,
    times: Seq<u64>,
    source_generation: u32,
    discontinuity_epoch: u64,
) -> LowSignalTracker
    decreases times.len(),
{
    if times.len() == 0 {
        tracker
    } else {
        observed_by(
            after_low_run(tracker, times.drop_last(), source_generation, discontinuity_epoch),
            times.last(),
            source_generation,
            discontinuity_epoch,
            true,
        )
    }
}

/// Low observations of one source, without another one between them, are sustained exactly once a
/// second and a half has passed since the first of them.
pub proof fn low_runs_are_sustained_after_their_time(
    tracker: LowSignalTracker,
    times: Seq<u64>,
    source_generation: u32,
    discontinuity_epoch: u64,
)
    requires
        times.len() > 0,
        tracker.started_at_ns is None || tracker.source_generation != source_generation
            || tracker.discontinuity_epoch != discontinuity_epoch,
    ensures
        ({
            let after = after_low_run(tracker, times, source_generation, discontinuity_epoch);
            &&& after.started_at_ns == Some(times[0])
            &&& after.source_generation == source_generation
            &&& after.discontinuity_epoch == discontinuity_epoch
            &&& is_sustained(after, times.last()) == (times.last() >= times[0] + 1_500_000_000)
        }),
    decreases times.len(),
{
    let earlier = times.drop_last();
    if earlier.len() > 0 {
        low_runs_are_sustained_after_their_time(
            tracker,
            earlier,
            source_generation,
            discontinuity_epoch,
        );
        assert(earlier[0] == times[0]);
    } else {
        assert(after_low_run(tracker, earlier, source_generation, discontinuity_epoch) == tracker);
    }
}

/// What is not low ends a run, and so does any evaluation but one below the thresholds, a lost
/// evaluation and a failed source: nothing is sustained after it.
pub proof fn anything_else_ends_a_low_run(
    tracker: LowSignalTracker,
    evaluation: Option<SignalEvaluation>,
    observed_at_ns: u64,
    source_generation: u32,
    discontinuity_epoch: u64,
    source_failed: bool,
)
    ensures
        observed_by(
            tracker,
            observed_at_ns,
            source_generation,
            discontinuity_epoch,
            false,
        ).started_at_ns is None,
        ({
            let after = tracker_after(
                tracker,
                evaluation,
                observed_at_ns,
                source_generation,
                discontinuity_epoch,
                source_failed,
            );
            let low = evaluation matches Some(evaluation) && evaluation.state
                == SignalState::BelowCallerThresholds && is_unusably_low(
                evaluation.peak_dbfs_bits,
                evaluation.rms_dbfs_bits,
            );
            if source_failed || !low {
                &&& after.started_at_ns is None
                &&& !is_sustained(after, observed_at_ns)
            } else {
                after == observed_by(
                    tracker,
                    observed_at_ns,
                    source_generation,
                    discontinuity_epoch,
                    true,
                )
            }
        }),
{
}

/// A microphone is observed when its signal was or, without one, when its activity was.
pub proof fn observation_times_are_those_of_the_signal(
    activity: ActivityObservations,
    signal: SignalReading,
)
    ensures
        observation_time(Some(activity), Some(signal)) == signal.observed_at_ns,
        observation_time(None, Some(signal)) == signal.observed_at_ns,
        observation_time(Some(activity), None) == activity.observed_at_ns,
        observation_time(None, None) == 0,
        evaluation_of(Some(signal)) == Some(signal.evaluation),
        evaluation_of(None) is None,
{
}

/// The first source counts from the start of its session, with nothing taken off; one that replaces
/// another counts from when it was first seen, with all that was counted before taken off; and one
/// that is attached already goes on as it is.
pub proof fn replacements_count_from_their_attachment(
    tracker: ObservationContinuityTracker,
    activity: ActivityObservations,
    signal: SignalWindowContinuity,
    generation: u32,
    epoch: u64,
)
    requires
        activity.session_started_at_ns > 0,
        activity.observed_at_ns > 0,
    ensures
        ({
            let after = attached(tracker, Some(activity), Some(signal), generation, epoch);
            &&& after.continuity == Some((generation, epoch))
            &&& tracker.continuity is None ==> after.started_at_ns
                == activity.session_started_at_ns && after.activity_frames_baseline == 0
                && after.signal_samples_baseline == 0
            &&& tracker.continuity is Some && tracker.continuity != Some((generation, epoch)) ==> {
                &&& after.started_at_ns == activity.observed_at_ns
                &&& after.activity_frames_baseline == activity.frames_received_total
                &&& after.signal_samples_baseline == signal.samples_observed_total
            }
            &&& tracker.continuity == Some((generation, epoch)) && tracker.started_at_ns > 0
                ==> after == tracker
            &&& tracker.continuity == Some((generation, epoch)) ==> {
                &&& after.activity_frames_baseline == tracker.activity_frames_baseline
                &&& after.signal_samples_baseline == tracker.signal_samples_baseline
            }
        }),
{
}

/// A signal is current exactly where it is of the present generation and epoch, and samples were
/// measured since the source was attached.
pub proof fn signals_are_current_by_their_own_samples(
    tracker: ObservationContinuityTracker,
    signal: SignalWindowContinuity,
    generation: u32,
    epoch: u64,
)
    ensures
        !is_current_signal(tracker, None, generation, epoch),
        is_current_signal(tracker, Some(signal), generation, epoch) == (signal.source_generation
            == generation && signal.discontinuity_epoch == epoch && signal.samples_observed_total
            > tracker.signal_samples_baseline),
{
}

/// The activity of the present source has the frames since it was attached, and its latest frame
/// where there is one and a signal of it was measured; without either it has no frame at all.
pub proof fn activity_counts_since_the_attachment(
    tracker: ObservationContinuityTracker,
    activity: ActivityObservations,
    current: bool,
)
    ensures
        projected(tracker, None, current) is None,
        projected(tracker, Some(activity), current) matches Some(shown) && {
            &&& shown.session_started_at_ns == tracker.started_at_ns
            &&& shown.observed_at_ns == activity.observed_at_ns
            &&& if current && activity.frames_received_total > tracker.activity_frames_baseline {
                &&& shown.frames_received_total == activity.frames_received_total
                    - tracker.activity_frames_baseline
                &&& shown.latest_frame_received_at_ns == activity.latest_frame_received_at_ns
                &&& shown.first_frame_received_at_ns == activity.latest_frame_received_at_ns
            } else {
                &&& shown.frames_received_total == 0
                &&& shown.latest_frame_received_at_ns is None
                &&& shown.first_frame_received_at_ns is None
            }
        },
{
}

/// The source of a stem is the first one that has it.
pub proof fn sources_are_found_by_their_stem(
    first: SourceSnapshot,
    sources: Seq<SourceSnapshot>,
    stem_id: u64,
)
    ensures
        source_of(Seq::empty(), stem_id) is None,
        source_of(seq![first] + sources, stem_id) == if first.stem_id == stem_id {
            Some(first)
        } else {
            source_of(sources, stem_id)
        },
{
    assert((seq![first] + sources).drop_first() =~= sources);
}

/// A source has the generation and the epoch of its replacement; the first source has generation one
/// and epoch zero.
pub proof fn first_sources_are_generation_one(source: SourceSnapshot)
    ensures
        source.replacement is None ==> generation_of(source) == 1 && epoch_of(source) == 0,
        source.replacement matches Some((generation, epoch)) ==> generation_of(source)
            == generation && epoch_of(source) == epoch,
        source.signal is None ==> window_of(source) is None,
        source.signal matches Some((window, reading)) ==> {
            &&& window_of(source) == Some(window)
            &&& current_reading(source, true) == Some(reading)
        },
        current_reading(source, false) is None,
        source.signal is None ==> current_reading(source, true) is None,
{
}

/// What is observed of a source names its format, generation and epoch as they are, and shows the
/// activity and the signal that its state was judged by.
pub proof fn observations_show_what_they_were_judged_by(
    source: SourceSnapshot,
    continuity: ObservationContinuityTracker,
    low_signal: LowSignalTracker,
    policy: ActivityPolicy,
    source_failed: bool,
)
    ensures
        ({
            let now = observed(source, continuity, low_signal, policy, source_failed);
            let current = is_current_signal(
                continuity,
                window_of(source),
                generation_of(source),
                epoch_of(source),
            );
            &&& now.native_format == source.native_format
            &&& now.source_generation == generation_of(source)
            &&& now.discontinuity_epoch == epoch_of(source)
            &&& now.activity == projected(continuity, source.activity, current)
            &&& now.signal == current_reading(source, current)
            &&& source_failed ==> now.state == MicrophoneSignalState::SourceFailed
            &&& !source_failed && now.activity is None ==> now.state
                == MicrophoneSignalState::AwaitingFirstFrame
            &&& !source_failed ==> (now.state == MicrophoneSignalState::SignalObserved) == (
            now.activity matches Some(activity) && activity_of(activity, policy)
                == ActivityState::Active && (now.signal matches Some(signal)
                && signal.evaluation.state == SignalState::MeetsCallerThresholds))
        }),
{
}

/// Of the sources that were discovered the input devices with an identity are microphones, each
/// under its identity and its name, and nothing else is.
pub proof fn microphones_are_identified_inputs(
    sources: Seq<DiscoveredSource>,
    next: DiscoveredSource,
)
    ensures
        microphones_of(Seq::empty()).len() == 0,
        microphones_of(sources.push(next)) == if next.kind == SourceKind::InputDevice
            && next.device_uid is Some {
            microphones_of(sources).push(
                SelectionView { device_id: next.device_uid->0@, display_name: next.name@ },
            )
        } else {
            microphones_of(sources)
        },
{
    assert(sources.push(next).drop_last() =~= sources);
}

/// With an exact identity a microphone is asked for by that alone; without one it is by its name, in
/// either case of ASCII letters, or by its identity.
pub proof fn microphones_are_asked_for_by_identity_or_name(
    sources: Seq<SelectionView>,
    next: SelectionView,
    requested: Seq<char>,
    id: Seq<char>,
)
    ensures
        asked_for(Seq::empty(), requested, Some(id)).len() == 0,
        asked_for(Seq::empty(), requested, None).len() == 0,
        asked_for(sources.push(next), requested, Some(id)) == if next.device_id == id {
            asked_for(sources, requested, Some(id)).push(next)
        } else {
            asked_for(sources, requested, Some(id))
        },
        asked_for(sources.push(next), requested, None) == if next.device_id == requested
            || same_ignoring_ascii_case(next.display_name, requested) {
            asked_for(sources, requested, None).push(next)
        } else {
            asked_for(sources, requested, None)
        },
{
    assert(sources.push(next).drop_last() =~= sources);
}

/// Where two microphones are asked for, both are found, so that neither is selected.
pub proof fn ambiguous_requests_find_both(
    sources: Seq<SelectionView>,
    requested: Seq<char>,
    exact: Option<Seq<char>>,
    i: int,
    j: int,
)
    requires
        0 <= i < j < sources.len(),
        is_asked_for(sources[i], requested, exact),
        is_asked_for(sources[j], requested, exact),
    ensures
        asked_for(sources, requested, exact).len() >= 2,
    decreases sources.len(),
{
    let earlier = sources.drop_last();
    if j < earlier.len() {
        ambiguous_requests_find_both(earlier, requested, exact, i, j);
    } else {
        assert(earlier[i] == sources[i]);
        one_is_found(earlier, requested, exact, i);
    }
}

proof fn one_is_found(
    sources: Seq<SelectionView>,
    requested: Seq<char>,
    exact: Option<Seq<char>>,
    i: int,
)
    requires
        0 <= i < sources.len(),
        is_asked_for(sources[i], requested, exact),
    ensures
        asked_for(sources, requested, exact).len() >= 1,
    decreases sources.len(),
{
    let earlier = sources.drop_last();
    if i < earlier.len() {
        assert(earlier[i] == sources[i]);
        one_is_found(earlier, requested, exact, i);
    }
}

/// What a user asked for is the text without the white space around it; white space alone, and the
/// word `default` in either case, asks for the system's default.
pub proof fn requests_are_trimmed(text: Seq<char>)
    ensures
        explicit_request_of(None) is None,
        explicit_request_of(Some(text)) == if trimmed_of(text).len() == 0
            || same_ignoring_ascii_case(
            trimmed_of(text),
            seq!['d', 'e', 'f', 'a', 'u', 'l', 't'],
        ) {
            None
        } else {
            Some(trimmed_of(text))
        },
{
    reveal_strlit("default");
    assert("default"@ =~= seq!['d', 'e', 'f', 'a', 'u', 'l', 't']);
}

/// A microphone that a user names is looked for by that name, whatever the default is. The default is
/// looked for by its identity alone; without one, or where it could not be read, that is said.
pub proof fn defaults_are_found_by_identity(
    device_override: Option<Seq<char>>,
    default_name: Seq<char>,
    default_input: DefaultInput,
)
    ensures
        explicit_request_of(device_override) matches Some(name) ==> wanted_microphone(
            device_override,
            default_name,
            default_input,
        ) == Ok::<(Seq<char>, Option<Seq<char>>), Seq<char>>((name, None)),
        explicit_request_of(device_override) is None ==> match default_input {
            DefaultInput::Known(id) => wanted_microphone(
                device_override,
                default_name,
                default_input,
            ) == Ok::<(Seq<char>, Option<Seq<char>>), Seq<char>>((default_name, Some(id@))),
            DefaultInput::Absent => wanted_microphone(device_override, default_name, default_input)
                == Err::<(Seq<char>, Option<Seq<char>>), Seq<char>>(
                "no default input device is available"@,
            ),
            DefaultInput::Unidentified(reason) => wanted_microphone(
                device_override,
                default_name,
                default_input,
            ) == Err::<(Seq<char>, Option<Seq<char>>), Seq<char>>(
                "read default input device identity: "@ + reason@,
            ),
        },
        selection_problem(0, default_name) == "no input device matches '"@ + default_name + "'"@,
        forall|n: nat| #![trigger selection_problem(n, default_name)]
            n > 0 ==> selection_problem(n, default_name)
                == "more than one input device matches '"@ + default_name + "'"@,
{
}

/// Observations are of an earlier source than one that is waited for where their generation is lower
/// or, in the same generation, their epoch is.
pub proof fn earlier_sources_are_not_reported(
    observations: MicrophoneObservations,
    identity: IdentityView,
    generation: u32,
    epoch: u64,
    logged: Option<(u32, Seq<char>)>,
)
    ensures
        !precedes_continuity(observations, None),
        precedes_continuity(observations, Some((generation, epoch))) == (
        observations.source_generation < generation || (observations.source_generation
            == generation && observations.discontinuity_epoch < epoch)),
        precedes_continuity(observations, Some((generation, epoch))) ==> !is_to_report(
            observations,
            identity,
            Some((generation, epoch)),
            logged,
        ),
{
}

/// A format that is known is reported exactly where this generation of this device was not reported
/// last, and nothing later is waited for. One that is not known is not reported.
pub proof fn formats_are_reported_for_each_attachment(
    observations: MicrophoneObservations,
    identity: IdentityView,
    minimum: Option<(u32, u64)>,
    generation: u32,
    device: Seq<char>,
)
    ensures
        observations.native_format is None ==> !is_to_report(
            observations,
            identity,
            minimum,
            Some((generation, device)),
        ) && !is_to_report(observations, identity, minimum, None),
        observations.native_format is Some && !precedes_continuity(observations, minimum) ==> {
            &&& is_to_report(observations, identity, minimum, None)
            &&& is_to_report(observations, identity, minimum, Some((generation, device))) == (
            generation != observations.source_generation || device != identity.device_id)
        },
        attachment_key(observations, identity) == (
            observations.source_generation,
            identity.device_id,
        ),
{
}

/// A record of an opened format has eleven fields, each with what it is named for, and so nothing of
/// the audio.
pub proof fn format_records_have_eleven_fields(
    time: Seq<char>,
    identity: IdentityView,
    format: NativeFormat,
    generation: u32,
    epoch: u64,
    key: Seq<char>,
)
    ensures
        ({
            let record = format_record(time, identity, format, generation, epoch);
            &&& record["ts"@] == JsonField::Text(time)
            &&& record["level"@] == JsonField::Text("info"@)
            &&& record["step"@] == JsonField::Text("pocketstation_microphone_opened_format"@)
            &&& record["device_id"@] == JsonField::Text(identity.device_id)
            &&& record["device_name"@] == JsonField::Text(identity.display_name)
            &&& record["sample_rate_hz"@] == JsonField::Number(format.sample_rate_hz as nat)
            &&& record["channel_count"@] == JsonField::Number(format.channel_count as nat)
            &&& record["sample_representation"@] == JsonField::Text(
                representation_word(format.sample_representation),
            )
            &&& record["source_generation"@] == JsonField::Number(generation as nat)
            &&& record["discontinuity_epoch"@] == JsonField::Number(epoch as nat)
            &&& record["message"@] == JsonField::Text(
                "PocketStation microphone opened a native input format"@,
            )
            &&& record.contains_key(key) == (key == "ts"@ || key == "level"@ || key == "step"@ || key
                == "device_id"@ || key == "device_name"@ || key == "sample_rate_hz"@ || key
                == "channel_count"@ || key == "sample_representation"@ || key
                == "source_generation"@ || key == "discontinuity_epoch"@ || key == "message"@)
        }),
{
    reveal_strlit("ts");
    assert("ts"@.len() == 2);
    reveal_strlit("level");
    assert("level"@.len() == 5);
    reveal_strlit("step");
    assert("step"@.len() == 4);
    reveal_strlit("device_id");
    assert("device_id"@.len() == 9);
    reveal_strlit("device_name");
    assert("device_name"@.len() == 11);
    reveal_strlit("sample_rate_hz");
    assert("sample_rate_hz"@.len() == 14);
    reveal_strlit("channel_count");
    assert("channel_count"@.len() == 13);
    reveal_strlit("sample_representation");
    assert("sample_representation"@.len() == 21);
    reveal_strlit("source_generation");
    assert("source_generation"@.len() == 17);
    reveal_strlit("discontinuity_epoch");
    assert("discontinuity_epoch"@.len() == 19);
    reveal_strlit("message");
    assert("message"@.len() == 7);
}

/// Each representation of a sample is written as it is named.
pub proof fn representations_are_written_as_named()
    ensures
        representation_word(SampleRepresentation::SignedInteger8) == "SignedInteger8"@,
        representation_word(SampleRepresentation::SignedInteger16) == "SignedInteger16"@,
        representation_word(SampleRepresentation::SignedInteger24) == "SignedInteger24"@,
        representation_word(SampleRepresentation::SignedInteger32) == "SignedInteger32"@,
        representation_word(SampleRepresentation::SignedInteger64) == "SignedInteger64"@,
        representation_word(SampleRepresentation::UnsignedInteger8) == "UnsignedInteger8"@,
        representation_word(SampleRepresentation::UnsignedInteger16) == "UnsignedInteger16"@,
        representation_word(SampleRepresentation::UnsignedInteger24) == "UnsignedInteger24"@,
        representation_word(SampleRepresentation::UnsignedInteger32) == "UnsignedInteger32"@,
        representation_word(SampleRepresentation::UnsignedInteger64) == "UnsignedInteger64"@,
        representation_word(SampleRepresentation::Float32) == "Float32"@,
        representation_word(SampleRepresentation::Float64) == "Float64"@,
{
}

/// A source that failed does not end its worker; a session that failed in any way does. Nothing else
/// of a worker changes by a notice.
pub proof fn sources_may_fail_and_sessions_may_not(worker: MicrophoneWorker)
    ensures
        after_notice(worker, SessionNotice::Source).source_failed,
        after_notice(worker, SessionNotice::Source).failed == worker.failed,
        after_notice(worker, SessionNotice::Endpoint).failed,
        after_notice(worker, SessionNotice::Rollback).failed,
        after_notice(worker, SessionNotice::Finalization).failed,
        after_notice(worker, SessionNotice::LifecycleFailed).failed,
        after_notice(worker, SessionNotice::TerminalFailed).failed,
        after_notice(worker, SessionNotice::Other) == worker,
        forall|notice: SessionNotice| #[trigger]
            after_notice(worker, notice) == (MicrophoneWorker {
                failed: after_notice(worker, notice).failed,
                source_failed: after_notice(worker, notice).source_failed,
                ..worker
            }),
        forall|notice: SessionNotice| notice != SessionNotice::Source ==> (#[trigger] after_notice(
            worker,
            notice,
        )).source_failed == worker.source_failed,
{
}

/// A worker that starts has failed in nothing, waits for its first frame, has dropped nothing, and
/// has reported no format. A frame changes its audio, its count and its failure alone.
pub proof fn workers_start_clean(
    worker: MicrophoneWorker,
    stem_id: u64,
    identity: IdentityView,
    after: MicrophoneWorker,
)
    ensures
        is_new_worker(worker, stem_id, identity) ==> {
            &&& worker.stem_id == stem_id
            &&& worker.identity@ == identity
            &&& !worker.failed
            &&& !worker.source_failed
            &&& worker.dropped_chunks_total == 0
            &&& worker.logged_attachment is None
            &&& worker.pending_format_continuity is None
            &&& worker.observations.state == MicrophoneSignalState::AwaitingFirstFrame
            &&& worker.observations.source_generation == 1
            &&& worker.observations.discontinuity_epoch == 0
            &&& worker.observation_continuity.continuity is None
            &&& worker.low_signal_tracker.started_at_ns is None
            &&& worker.writer@.buffer.len() == 0
            &&& worker.writer@.next == 0
            &&& worker.writer@.latest is None
        },
        differs_by_audio(worker, after) ==> {
            &&& after.stem_id == worker.stem_id
            &&& after.identity == worker.identity
            &&& after.source_failed == worker.source_failed
            &&& after.observations == worker.observations
            &&& after.low_signal_tracker == worker.low_signal_tracker
            &&& after.observation_continuity == worker.observation_continuity
            &&& after.logged_attachment == worker.logged_attachment
            &&& after.pending_format_continuity == worker.pending_format_continuity
        },
{
}

/// The microphone that a source is has the identity and the name of the source.
pub proof fn microphones_keep_their_names(source: DiscoveredSource)
    ensures
        (microphone_of(source) is Some) == (source.kind == SourceKind::InputDevice
            && source.device_uid is Some),
        microphone_of(source) matches Some(microphone) ==> microphone.device_id
            == source.device_uid->0@ && microphone.display_name == source.name@,
{
}

/// Without an activity the time of observation is zero.
pub proof fn activities_carry_their_time(activity: ActivityObservations)
    ensures
        observed_at(None) == 0,
        observed_at(Some(activity)) == activity.observed_at_ns,
{
}

/// A record of the format that was observed is the one of its source: of its format, generation and
/// epoch, and of some time.
pub proof fn records_are_of_what_was_observed(
    entry: serde_json::Map<String, serde_json::Value>,
    observations: MicrophoneObservations,
    identity: IdentityView,
)
    requires
        is_format_record(entry, observations, identity),
    ensures
        exists|time: Seq<char>|
            json_fields(entry) == #[trigger] format_record(
                time,
                identity,
                observations.native_format->0,
                observations.source_generation,
                observations.discontinuity_epoch,
            ),
{
}

} // verus!
