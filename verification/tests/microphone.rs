use minutes_core::chunk_writer::{
    check_frame_format, deliver_chunk, downsample, note_delivery, AudioChunk,
    MicrophoneAudioChunkWriter, PolledFrame, SendOutcome, SourceRole, CHUNK_SAMPLES,
    SOURCE_FRAME_SAMPLES,
};
use minutes_core::errors::CaptureError;
use minutes_core::lineage::{
    contiguous_source_interval, merge_source_interval, missing_source_frames,
    same_source_interval, AudioChunkLineage, MAX_SEQUENCE_GAP_NS, SOURCE_FRAME_DURATION_NS,
};
use minutes_core::observations::{
    update_observations, MicrophoneObservations, NativeFormat, ObservationContinuityTracker,
    SampleRepresentation, SignalWindowContinuity, SourceSnapshot,
};
use minutes_core::selection::{
    choose_recovery_fallback, discovered_microphones, explicit_request,
    select_discovered_microphone, DefaultInput, DiscoveredSource, MicrophoneSelection, SourceKind,
};
use minutes_core::signal::{
    classify_evaluations, evaluate_observations, evaluate_state, microphone_activity_policy,
    ActivityObservations, ActivityState, LowSignalTracker, MicrophoneSignalState,
    SignalEvaluation, SignalReading, SignalState, UNUSABLE_LOW_SIGNAL_TIMEOUT_NS,
};
use minutes_core::worker::{
    control_result, opened_native_format_diagnostic_key, opened_native_format_log_entry,
    report_opened_native_format_once, shutdown_is_clean, ControlReply, FrameStep,
    MicrophoneDiagnosticIdentity, MicrophoneWorker, SessionNotice, WorkerEnd,
};
use std::time::Instant;

fn selection(device_id: &str, display_name: &str) -> MicrophoneSelection {
    MicrophoneSelection {
        device_id: device_id.to_owned(),
        display_name: display_name.to_owned(),
    }
}

fn activity(
    observed_at_ns: u64,
    first_frame_received_at_ns: Option<u64>,
    latest_frame_received_at_ns: Option<u64>,
) -> ActivityObservations {
    ActivityObservations {
        session_started_at_ns: 1,
        observed_at_ns,
        first_frame_received_at_ns,
        latest_frame_received_at_ns,
        frames_received_total: u64::from(first_frame_received_at_ns.is_some()),
    }
}

fn level(dbfs: f64) -> Option<u64> {
    Some(dbfs.to_bits())
}

fn message(error: CaptureError) -> String {
    match error {
        CaptureError::Io(text) => text,
    }
}

fn template() -> AudioChunkLineage {
    AudioChunkLineage {
        session_id: 1,
        source_id: 202,
        stem_id: 7,
        clock_id: 9,
        first_sequence_number: 0,
        last_sequence_number: 0,
        missing_sequence_count: 0,
        inserted_silence_samples: 0,
        timestamp_start_ns: 1_000_000_000,
        duration_ns: SOURCE_FRAME_DURATION_NS,
        source_generation: 1,
        discontinuity_epoch: 0,
        permission_epoch: 3,
        observed_at_ns: 1_010_000_000,
        polled_at_ns: 1_011_000_000,
    }
}

fn frame_at(sequence: u64) -> AudioChunkLineage {
    AudioChunkLineage {
        first_sequence_number: sequence,
        last_sequence_number: sequence,
        timestamp_start_ns: template().timestamp_start_ns + sequence * SOURCE_FRAME_DURATION_NS,
        ..template()
    }
}

fn identity(device_id: &str, display_name: &str) -> MicrophoneDiagnosticIdentity {
    MicrophoneDiagnosticIdentity {
        device_id: device_id.to_owned(),
        display_name: display_name.to_owned(),
    }
}

fn hfp_format() -> NativeFormat {
    NativeFormat {
        sample_rate_hz: 16_000,
        channel_count: 1,
        sample_representation: SampleRepresentation::SignedInteger16,
    }
}

#[test]
fn activity_facts_distinguish_waiting_no_frames_active_and_stalled() {
    let policy = microphone_activity_policy();
    let mut tracker = LowSignalTracker::default();
    let mut evaluate =
        |observed| evaluate_observations(Some(observed), None, policy, &mut tracker, 1, 0, false);
    assert_eq!(
        evaluate(activity(1_000_000_000, None, None)),
        MicrophoneSignalState::AwaitingFirstFrame
    );
    assert_eq!(
        evaluate(activity(3_000_000_000, None, None)),
        MicrophoneSignalState::NoFrames
    );
    assert_eq!(
        evaluate(activity(1_500_000_000, Some(500_000_000), Some(1_000_000_000))),
        MicrophoneSignalState::Active
    );
    assert_eq!(
        evaluate(activity(4_000_000_000, Some(500_000_000), Some(1_000_000_000))),
        MicrophoneSignalState::Stalled
    );
}

#[test]
fn activity_deadlines_are_reached_exactly() {
    let policy = microphone_activity_policy();
    let mut tracker = LowSignalTracker::default();
    let mut evaluate =
        |observed| evaluate_observations(Some(observed), None, policy, &mut tracker, 1, 0, false);
    assert_eq!(
        evaluate(activity(2_000_000_000, None, None)),
        MicrophoneSignalState::AwaitingFirstFrame
    );
    assert_eq!(
        evaluate(activity(2_000_000_001, None, None)),
        MicrophoneSignalState::NoFrames
    );
    assert_eq!(
        evaluate(activity(2_999_999_999, Some(1), Some(1_000_000_000))),
        MicrophoneSignalState::Active
    );
    assert_eq!(
        evaluate(activity(3_000_000_000, Some(1), Some(1_000_000_000))),
        MicrophoneSignalState::Stalled
    );
    assert_eq!(
        evaluate(activity(5, Some(1), Some(1_000_000_000))),
        MicrophoneSignalState::Active
    );
}

#[test]
fn source_failure_is_not_relabelled_as_silence() {
    let mut tracker = LowSignalTracker::default();
    assert_eq!(
        evaluate_observations(
            None,
            None,
            microphone_activity_policy(),
            &mut tracker,
            1,
            0,
            true,
        ),
        MicrophoneSignalState::SourceFailed
    );
}

#[test]
fn duplicate_default_display_name_resolves_by_exact_device_identity() {
    let selected = select_discovered_microphone(
        vec![
            selection("other-uid", "MacBook Pro Microphone"),
            selection("default-uid", "MacBook Pro Microphone"),
        ],
        "MacBook Pro Microphone",
        Some("default-uid"),
    )
    .ok()
    .unwrap();

    assert_eq!(selected.device_id, "default-uid");
}

#[test]
fn explicit_ambiguous_display_name_remains_rejected() {
    let result = select_discovered_microphone(
        vec![
            selection("first-uid", "Duplicate Microphone"),
            selection("second-uid", "Duplicate Microphone"),
        ],
        "Duplicate Microphone",
        None,
    );

    assert_eq!(
        message(result.err().unwrap()),
        "select PocketStation microphone: more than one input device matches 'Duplicate Microphone'"
    );
}

#[test]
fn microphones_are_asked_for_by_name_or_identity() {
    let sources = || vec![selection("uid-1", "Headset"), selection("uid-2", "Desk")];
    let by_name = select_discovered_microphone(sources(), "HEADSET", None).ok().unwrap();
    assert_eq!(by_name.device_id, "uid-1");
    let by_identity = select_discovered_microphone(sources(), "uid-2", None).ok().unwrap();
    assert_eq!(by_identity.display_name, "Desk");
    assert_eq!(
        message(select_discovered_microphone(sources(), "Lamp", None).err().unwrap()),
        "select PocketStation microphone: no input device matches 'Lamp'"
    );
}

#[test]
fn requests_for_the_default_resolve_by_its_identity() {
    let sources = || vec![selection("uid-1", "Headset"), selection("uid-2", "Headset")];
    assert!(explicit_request(Some("  Default ")).is_none());
    assert!(explicit_request(Some("   ")).is_none());
    assert_eq!(explicit_request(Some(" Desk ")), Some("Desk".to_string()));
    let resolved = MicrophoneSelection::resolve(
        Some("default"),
        "Headset",
        DefaultInput::Known("uid-2".to_string()),
        sources(),
    );
    assert_eq!(resolved.ok().unwrap().device_id, "uid-2");
    let absent = MicrophoneSelection::resolve(None, "Headset", DefaultInput::Absent, sources());
    assert_eq!(
        message(absent.err().unwrap()),
        "select PocketStation microphone: no default input device is available"
    );
    let unknown = MicrophoneSelection::resolve(
        None,
        "Headset",
        DefaultInput::Unidentified("denied".to_string()),
        sources(),
    );
    assert_eq!(
        message(unknown.err().unwrap()),
        "select PocketStation microphone: read default input device identity: denied"
    );
}

#[test]
fn only_input_devices_with_an_identity_are_microphones() {
    let found = discovered_microphones(vec![
        DiscoveredSource {
            kind: SourceKind::OutputDevice,
            device_uid: Some("speaker".to_string()),
            name: "Speaker".to_string(),
        },
        DiscoveredSource {
            kind: SourceKind::InputDevice,
            device_uid: None,
            name: "Nameless".to_string(),
        },
        DiscoveredSource {
            kind: SourceKind::InputDevice,
            device_uid: Some("desk".to_string()),
            name: "Desk".to_string(),
        },
    ]);
    assert_eq!(found.len(), 1);
    assert_eq!(found[0].device_id, "desk");
    assert_eq!(found[0].display_name, "Desk");
}

#[test]
fn fallback_follows_an_os_default_that_changed_physical_device() {
    let fallback = choose_recovery_fallback(
        Some("headset-uid"),
        Some(selection("builtin-uid", "MacBook Microphone")),
    )
    .unwrap();

    assert_eq!(fallback.device_id, "builtin-uid");
    assert_eq!(fallback.display_name, "MacBook Microphone");
}

#[test]
fn fallback_does_not_invent_an_alternative_when_os_default_is_unchanged() {
    assert!(choose_recovery_fallback(
        Some("headset-uid"),
        Some(selection("headset-uid", "Logi HFP")),
    )
    .is_none());
    assert!(choose_recovery_fallback(
        None,
        Some(selection("builtin-uid", "Built-in Microphone")),
    )
    .is_none());
    let refused = MicrophoneSelection::recovery_fallback(
        Some("headset-uid"),
        Ok(selection("headset-uid", "Logi HFP")),
    );
    assert!(message(refused.err().unwrap())
        .starts_with("select PocketStation microphone fallback: the system default input"));
}

#[test]
fn active_zero_samples_are_distinct_from_no_frames_and_useful_signal() {
    assert_eq!(
        classify_evaluations(
            Some(ActivityState::Active),
            Some(SignalState::SustainedExactDigitalZero),
            false,
        ),
        MicrophoneSignalState::DigitallySilent
    );
    assert_eq!(
        classify_evaluations(
            Some(ActivityState::Active),
            Some(SignalState::MeetsCallerThresholds),
            false,
        ),
        MicrophoneSignalState::SignalObserved
    );
}

#[test]
fn reported_hfp_noise_envelope_requires_bounded_low_signal_warning() {
    let mut tracker = LowSignalTracker::default();
    let timeout_ns = UNUSABLE_LOW_SIGNAL_TIMEOUT_NS;

    assert!(!tracker.observe(1, 1, 0, level(-78.3), level(-91.0)));
    assert!(!tracker.observe(timeout_ns, 1, 0, level(-78.3), level(-91.0)));
    assert!(tracker.observe(timeout_ns + 1, 1, 0, level(-78.3), level(-91.0)));

    // Ordinary quiet audio and a new physical source both reset the
    // bounded interval rather than inheriting an earlier failure.
    assert!(!tracker.observe(timeout_ns + 2, 1, 0, level(-60.0), level(-68.0)));
    assert!(!tracker.observe(timeout_ns * 3, 2, 1, level(-78.3), level(-91.0)));
}

#[test]
fn low_levels_are_told_by_their_bits() {
    let low = |peak: f64, rms: f64| {
        let mut tracker = LowSignalTracker::default();
        tracker.observe(0, 0, 0, level(peak), level(rms));
        tracker.observe(UNUSABLE_LOW_SIGNAL_TIMEOUT_NS, 0, 0, level(peak), level(rms))
    };
    assert!(low(-70.0, -80.0));
    assert!(low(f64::NEG_INFINITY, f64::NEG_INFINITY));
    assert!(!low(-69.999, -80.0));
    assert!(!low(-70.0, -79.999));
    assert!(!low(70.0, 80.0));
    assert!(!low(0.0, -0.0));
    assert!(!low(f64::NAN, -91.0));
    assert!(!low(f64::INFINITY, f64::NEG_INFINITY));
    let mut tracker = LowSignalTracker::default();
    tracker.observe(0, 0, 0, None, level(-91.0));
    assert!(tracker.started_at_ns.is_none());
}

#[test]
fn reported_hfp_envelope_transitions_only_after_timeout_and_resets_on_source_change() {
    let mut tracker = LowSignalTracker::default();
    let timeout_ns = UNUSABLE_LOW_SIGNAL_TIMEOUT_NS;
    let low_signal = Some(SignalEvaluation {
        state: SignalState::BelowCallerThresholds,
        peak_dbfs_bits: level(-78.3),
        rms_dbfs_bits: level(-91.0),
    });
    let evaluate = |observed_at_ns, generation, discontinuity, tracker: &mut LowSignalTracker| {
        evaluate_state(
            Some(ActivityState::Active),
            low_signal,
            observed_at_ns,
            tracker,
            generation,
            discontinuity,
            false,
        )
    };

    assert_eq!(
        evaluate(1, 1, 0, &mut tracker),
        MicrophoneSignalState::BelowThresholds
    );
    assert_eq!(
        evaluate(timeout_ns, 1, 0, &mut tracker),
        MicrophoneSignalState::BelowThresholds
    );
    assert_eq!(
        evaluate(timeout_ns + 1, 1, 0, &mut tracker),
        MicrophoneSignalState::SustainedLowSignal
    );

    assert_eq!(
        evaluate(timeout_ns * 3, 2, 0, &mut tracker),
        MicrophoneSignalState::BelowThresholds,
        "a new source generation starts a new bounded interval"
    );
    assert_eq!(
        evaluate(timeout_ns * 5, 2, 1, &mut tracker),
        MicrophoneSignalState::BelowThresholds,
        "a discontinuity starts a new bounded interval"
    );
}

#[test]
fn sustained_low_signal_warns_but_does_not_authorize_source_recovery() {
    let observations = MicrophoneObservations {
        state: MicrophoneSignalState::SustainedLowSignal,
        ..MicrophoneObservations::default()
    };

    assert!(!observations.requires_recovery());
    assert!(!observations.confirms_recovery());
}

#[test]
fn stale_good_window_cannot_confirm_a_replacement_without_a_current_frame() {
    let policy = microphone_activity_policy();
    let mut continuity = ObservationContinuityTracker::default();
    let old_activity = ActivityObservations {
        session_started_at_ns: 1,
        observed_at_ns: 1_000_000_000,
        first_frame_received_at_ns: Some(900_000_000),
        latest_frame_received_at_ns: Some(990_000_000),
        frames_received_total: 1,
    };
    let old_good_window = SignalWindowContinuity {
        source_generation: 1,
        discontinuity_epoch: 0,
        samples_observed_total: 480,
    };
    let state_of = |projected: Option<ActivityObservations>| {
        let mut tracker = LowSignalTracker::default();
        evaluate_observations(projected, None, policy, &mut tracker, 1, 0, false)
    };

    let (initial_activity, initial_signal_is_current) =
        continuity.project_activity(Some(old_activity), Some(old_good_window), 1, 0);
    assert!(initial_signal_is_current);
    assert_eq!(state_of(initial_activity), MicrophoneSignalState::Active);
    assert!(MicrophoneObservations {
        state: MicrophoneSignalState::SignalObserved,
        source_generation: 1,
        discontinuity_epoch: 0,
        ..MicrophoneObservations::default()
    }
    .confirms_recovery());

    let (replacement_activity, replacement_signal_is_current) = continuity.project_activity(
        Some(ActivityObservations {
            observed_at_ns: 1_100_000_000,
            ..old_activity
        }),
        Some(old_good_window),
        2,
        1,
    );
    assert!(!replacement_signal_is_current);
    let replacement_state = state_of(replacement_activity);
    assert_eq!(replacement_state, MicrophoneSignalState::AwaitingFirstFrame);
    assert!(!MicrophoneObservations {
        state: replacement_state,
        source_generation: 2,
        discontinuity_epoch: 1,
        ..MicrophoneObservations::default()
    }
    .confirms_recovery());

    let (current_activity, current_signal_is_current) = continuity.project_activity(
        Some(ActivityObservations {
            observed_at_ns: 1_200_000_000,
            latest_frame_received_at_ns: Some(1_190_000_000),
            frames_received_total: 2,
            ..old_activity
        }),
        Some(SignalWindowContinuity {
            source_generation: 2,
            discontinuity_epoch: 1,
            samples_observed_total: 960,
        }),
        2,
        1,
    );
    assert!(current_signal_is_current);
    assert_eq!(state_of(current_activity), MicrophoneSignalState::Active);
    assert!(MicrophoneObservations {
        state: MicrophoneSignalState::SignalObserved,
        source_generation: 2,
        discontinuity_epoch: 1,
        ..MicrophoneObservations::default()
    }
    .confirms_recovery());
}

fn snapshot(state: SignalState) -> SourceSnapshot {
    SourceSnapshot {
        stem_id: 7,
        activity: Some(ActivityObservations {
            session_started_at_ns: 1,
            observed_at_ns: 1_000_000_000,
            first_frame_received_at_ns: Some(900_000_000),
            latest_frame_received_at_ns: Some(990_000_000),
            frames_received_total: 3,
        }),
        signal: Some((
            SignalWindowContinuity {
                source_generation: 1,
                discontinuity_epoch: 0,
                samples_observed_total: 480,
            },
            SignalReading {
                observed_at_ns: 1_000_000_000,
                evaluation: SignalEvaluation {
                    state,
                    peak_dbfs_bits: level(-20.0),
                    rms_dbfs_bits: level(-30.0),
                },
            },
        )),
        replacement: None,
        native_format: Some(hfp_format()),
    }
}

#[test]
fn observations_follow_the_source_of_the_stem() {
    let mut tracker = LowSignalTracker::default();
    let mut continuity = ObservationContinuityTracker::default();
    let mut observations = MicrophoneObservations::default();
    let policy = microphone_activity_policy();
    let other = SourceSnapshot { stem_id: 8, ..snapshot(SignalState::SustainedExactDigitalZero) };
    assert!(update_observations(
        &vec![other],
        7,
        policy,
        &mut tracker,
        &mut continuity,
        false,
        &mut observations,
    )
    .is_none());
    let seen = update_observations(
        &vec![other, snapshot(SignalState::MeetsCallerThresholds)],
        7,
        policy,
        &mut tracker,
        &mut continuity,
        false,
        &mut observations,
    )
    .unwrap();
    assert_eq!(seen.state, MicrophoneSignalState::SignalObserved);
    assert_eq!(seen.source_generation, 1);
    assert_eq!(observations, seen);
    // The same window seen after a replacement is no signal of the new source.
    let replaced = SourceSnapshot {
        replacement: Some((2, 1)),
        ..snapshot(SignalState::MeetsCallerThresholds)
    };
    let after = update_observations(
        &vec![replaced],
        7,
        policy,
        &mut tracker,
        &mut continuity,
        false,
        &mut observations,
    )
    .unwrap();
    assert_eq!(after.state, MicrophoneSignalState::AwaitingFirstFrame);
    assert!(after.signal.is_none());
}

#[test]
fn opened_format_diagnostic_is_content_free_and_names_the_physical_format() {
    let identity = identity("device-uid", "Logi HFP");
    let native_format = hfp_format();
    let entry = opened_native_format_log_entry(&identity, native_format, 2, 1);

    assert_eq!(entry["step"], "pocketstation_microphone_opened_format");
    assert_eq!(entry["device_id"], "device-uid");
    assert_eq!(entry["device_name"], "Logi HFP");
    assert_eq!(entry["level"], "info");
    assert_eq!(entry["sample_rate_hz"], 16_000);
    assert_eq!(entry["channel_count"], 1);
    assert_eq!(entry["sample_representation"], "SignedInteger16");
    assert_eq!(entry["source_generation"], 2);
    assert_eq!(entry["discontinuity_epoch"], 1);
    assert!(entry.get("samples").is_none());
    assert!(entry.get("audio").is_none());
    assert_eq!(entry.len(), 11);

    let observations = MicrophoneObservations {
        native_format: Some(native_format),
        source_generation: 2,
        discontinuity_epoch: 1,
        ..MicrophoneObservations::default()
    };
    let key = opened_native_format_diagnostic_key(observations, &identity);
    assert_eq!(
        opened_native_format_diagnostic_key(observations, &identity),
        key.clone(),
        "unchanged observations are de-duplicated by the same key"
    );
    assert_eq!(
        opened_native_format_diagnostic_key(
            MicrophoneObservations {
                discontinuity_epoch: 2,
                ..observations
            },
            &identity,
        ),
        key.clone(),
        "a discontinuity alone does not duplicate the attachment diagnostic"
    );
    assert_ne!(
        opened_native_format_diagnostic_key(
            MicrophoneObservations {
                source_generation: 3,
                ..observations
            },
            &identity,
        ),
        key.clone(),
        "a new source generation gets one new diagnostic"
    );
    assert_ne!(
        opened_native_format_diagnostic_key(
            observations,
            &MicrophoneDiagnosticIdentity {
                device_id: "fallback-uid".to_owned(),
                display_name: "Built-in Microphone".to_owned(),
            },
        ),
        key,
        "a different physical device gets one new diagnostic"
    );
}

#[test]
fn opened_formats_are_reported_once_for_each_attachment() {
    let identity = identity("device-uid", "Logi HFP");
    let observations = MicrophoneObservations {
        native_format: Some(hfp_format()),
        source_generation: 2,
        discontinuity_epoch: 1,
        ..MicrophoneObservations::default()
    };
    let mut logged = None;
    assert!(report_opened_native_format_once(observations, &identity, Some((2, 2)), &mut logged)
        .is_none());
    assert!(report_opened_native_format_once(observations, &identity, Some((2, 1)), &mut logged)
        .is_some());
    assert!(report_opened_native_format_once(observations, &identity, None, &mut logged).is_none());
    assert_eq!(logged, Some((2, "device-uid".to_string())));
    let unopened = MicrophoneObservations { native_format: None, ..observations };
    let mut fresh = None;
    assert!(report_opened_native_format_once(unopened, &identity, None, &mut fresh).is_none());
}

#[test]
fn aggregate_lineage_preserves_bounds_and_rejects_generation_merging() {
    let first = AudioChunkLineage {
        session_id: 1,
        source_id: 202,
        stem_id: 7,
        clock_id: 9,
        first_sequence_number: 20,
        last_sequence_number: 20,
        missing_sequence_count: 0,
        inserted_silence_samples: 0,
        timestamp_start_ns: 1_000_000_000,
        duration_ns: 10_000_000,
        source_generation: 1,
        discontinuity_epoch: 0,
        permission_epoch: 3,
        observed_at_ns: 1_010_000_000,
        polled_at_ns: 1_011_000_000,
    };
    let mut aggregate = first;
    for sequence in 21..=29 {
        let next = AudioChunkLineage {
            first_sequence_number: sequence,
            last_sequence_number: sequence,
            timestamp_start_ns: 1_000_000_000 + (sequence - 20) * 10_000_000,
            observed_at_ns: 1_010_000_000 + (sequence - 20) * 10_000_000,
            polled_at_ns: 1_011_000_000 + (sequence - 20) * 10_000_000,
            ..first
        };
        assert!(contiguous_source_interval(aggregate, next));
        aggregate = merge_source_interval(Some(aggregate), next);
    }

    assert_eq!(aggregate.first_sequence_number, 20);
    assert_eq!(aggregate.last_sequence_number, 29);
    assert_eq!(aggregate.timestamp_start_ns, 1_000_000_000);
    assert_eq!(aggregate.duration_ns, 100_000_000);
    assert_eq!(aggregate.source_generation, 1);
    assert_eq!(aggregate.discontinuity_epoch, 0);

    let replacement = AudioChunkLineage {
        source_id: 204,
        first_sequence_number: 0,
        last_sequence_number: 0,
        timestamp_start_ns: 1_200_000_000,
        source_generation: 2,
        discontinuity_epoch: 1,
        ..first
    };
    assert!(!same_source_interval(aggregate, replacement));

    let sequence_gap = AudioChunkLineage {
        first_sequence_number: 31,
        last_sequence_number: 31,
        timestamp_start_ns: aggregate.timestamp_end_ns() + 10_000_000,
        ..aggregate
    };
    assert!(!contiguous_source_interval(aggregate, sequence_gap));
}

#[test]
fn source_gap_is_bounded_by_sequence_while_preserving_native_timestamps() {
    let first = AudioChunkLineage {
        session_id: 1,
        source_id: 202,
        stem_id: 7,
        clock_id: 9,
        first_sequence_number: 20,
        last_sequence_number: 20,
        missing_sequence_count: 0,
        inserted_silence_samples: 0,
        timestamp_start_ns: 1_000_000_000,
        duration_ns: SOURCE_FRAME_DURATION_NS,
        source_generation: 1,
        discontinuity_epoch: 0,
        permission_epoch: 3,
        observed_at_ns: 1_010_000_000,
        polled_at_ns: 1_011_000_000,
    };
    let one_missing_frame = AudioChunkLineage {
        first_sequence_number: 22,
        last_sequence_number: 22,
        timestamp_start_ns: 1_020_000_000,
        ..first
    };
    assert_eq!(missing_source_frames(first, one_missing_frame).unwrap(), 1);

    let inconsistent = AudioChunkLineage {
        first_sequence_number: 23,
        last_sequence_number: 23,
        ..one_missing_frame
    };
    assert!(missing_source_frames(first, inconsistent).is_err());

    let jittered_gap = AudioChunkLineage {
        first_sequence_number: 23,
        last_sequence_number: 23,
        timestamp_start_ns: 1_030_000_000 - 106_167,
        ..first
    };
    assert_eq!(missing_source_frames(first, jittered_gap).unwrap(), 2);

    let jittered = AudioChunkLineage {
        first_sequence_number: 21,
        last_sequence_number: 21,
        timestamp_start_ns: first.timestamp_end_ns().saturating_sub(106_167),
        ..first
    };
    assert!(contiguous_source_interval(first, jittered));

    let repeated_start = AudioChunkLineage {
        first_sequence_number: 21,
        last_sequence_number: 21,
        timestamp_start_ns: first.timestamp_start_ns,
        ..first
    };
    assert!(!contiguous_source_interval(first, repeated_start));
    assert!(missing_source_frames(first, repeated_start).is_err());

    let unbounded_timestamp = AudioChunkLineage {
        first_sequence_number: 21,
        last_sequence_number: 21,
        timestamp_start_ns: first
            .timestamp_end_ns()
            .saturating_add(MAX_SEQUENCE_GAP_NS)
            .saturating_add(1),
        ..first
    };
    assert!(!contiguous_source_interval(first, unbounded_timestamp));
    assert!(missing_source_frames(first, unbounded_timestamp).is_err());

    let adjacent_but_far_away = AudioChunkLineage {
        first_sequence_number: 21,
        last_sequence_number: 21,
        timestamp_start_ns: first.timestamp_end_ns().saturating_add(1_000_000_000),
        ..first
    };
    assert!(!contiguous_source_interval(first, adjacent_but_far_away));
    assert!(missing_source_frames(first, adjacent_but_far_away).is_err());

    let unbounded = AudioChunkLineage {
        first_sequence_number: 222,
        last_sequence_number: 222,
        ..first
    };
    assert!(missing_source_frames(first, unbounded).is_err());
}

#[test]
fn refused_gaps_say_how_long_they_are() {
    let far = frame_at(202);
    assert_eq!(
        message(missing_source_frames(frame_at(0), far).err().unwrap()),
        "preserve PocketStation microphone timeline: source gap of 2010000000 ns exceeds the \
         bounded 2000000000 ns repair window"
    );
    assert_eq!(missing_source_frames(frame_at(0), frame_at(201)).unwrap(), 200);
    assert_eq!(
        message(missing_source_frames(frame_at(3), frame_at(2)).err().unwrap()),
        "preserve PocketStation microphone timeline: source timestamps did not advance within \
         the bounded repair window"
    );
}

#[test]
fn inserted_gap_silence_is_written_and_recorded_in_chunk_lineage() {
    let (sender, receiver) = crossbeam_channel::bounded(2);
    let mut dropped = 0u64;
    let mut writer = MicrophoneAudioChunkWriter::new();
    let half = vec![0.5f32.to_bits(); SOURCE_FRAME_SAMPLES];

    for sequence in 0..10 {
        writer
            .push_source_frame_samples(&half, frame_at(sequence), &sender, &mut dropped)
            .unwrap();
    }
    let first_chunk = receiver.try_recv().unwrap();
    assert_eq!(first_chunk.lineage.unwrap().last_sequence_number, 9);

    // Skip sequence 10 and its 10 ms timestamp interval exactly at an
    // emitted 100 ms chunk boundary. Gap detection must use the separate
    // latest-source-frame cursor rather than pending chunk aggregation.
    for sequence in 11..20 {
        writer
            .push_source_frame_samples(&half, frame_at(sequence), &sender, &mut dropped)
            .unwrap();
    }

    let chunk = receiver.try_recv().unwrap();
    assert_eq!(chunk.samples.len(), CHUNK_SAMPLES);
    assert!(chunk.samples[..SOURCE_FRAME_SAMPLES]
        .iter()
        .all(|sample| f32::from_bits(*sample) == 0.0));
    assert!(chunk.samples[SOURCE_FRAME_SAMPLES..]
        .iter()
        .all(|sample| f32::from_bits(*sample) == 0.5));
    let lineage = chunk.lineage.unwrap();
    assert_eq!(lineage.first_sequence_number, 10);
    assert_eq!(lineage.last_sequence_number, 19);
    assert_eq!(lineage.missing_sequence_count, 1);
    assert_eq!(
        lineage.inserted_silence_samples,
        SOURCE_FRAME_SAMPLES as u64
    );
    assert_eq!(lineage.duration_ns, 10 * SOURCE_FRAME_DURATION_NS);
    assert_eq!((first_chunk.index, chunk.index), (0, 1));
    assert_eq!(chunk.source, SourceRole::Voice);
}

#[test]
fn frames_are_checked_downsampled_and_written() {
    let (sender, receiver) = crossbeam_channel::bounded(4);
    let mut dropped = 0u64;
    let mut writer = MicrophoneAudioChunkWriter::new();
    let polled = |sequence: u64| PolledFrame {
        sample_rate_hz: 48_000,
        channels: 2,
        sample_count: 960,
        mono: (0..480).map(|i| sequence as u32 * 480 + i).collect(),
        lineage: frame_at(sequence),
    };
    for sequence in 0..10 {
        writer.write_frame(&polled(sequence), &sender, &mut dropped).unwrap();
    }
    let chunk = receiver.try_recv().unwrap();
    let expected: Vec<u32> = (0..1600).map(|i| i * 3).collect();
    assert_eq!(chunk.samples, expected);

    let mut slow = polled(10);
    slow.sample_rate_hz = 44_100;
    assert_eq!(
        message(writer.write_frame(&slow, &sender, &mut dropped).err().unwrap()),
        "read PocketStation microphone: expected 48000 Hz canonical audio, received 44100 Hz"
    );
    assert_eq!(
        message(check_frame_format(48_000, 0, 960).err().unwrap()),
        "read PocketStation microphone: received an invalid channel layout"
    );
    assert!(check_frame_format(48_000, 2, 961).is_err());
    assert!(check_frame_format(48_000, 2, 960).is_ok());
}

#[test]
fn downsampling_carries_its_phase_across_frames() {
    let (first, phase) = downsample(0, &vec![1, 2, 3, 4]);
    assert_eq!((first, phase), (vec![1, 4], 1));
    let (second, phase) = downsample(1, &vec![5, 6, 7]);
    assert_eq!((second, phase), (vec![7], 1));
}

#[test]
fn a_changed_source_starts_the_writer_over() {
    let (sender, receiver) = crossbeam_channel::bounded(4);
    let mut dropped = 0u64;
    let mut writer = MicrophoneAudioChunkWriter::new();
    let ones = vec![1u32; SOURCE_FRAME_SAMPLES];
    let twos = vec![2u32; SOURCE_FRAME_SAMPLES];
    writer.push_source_frame_samples(&ones, frame_at(0), &sender, &mut dropped).unwrap();
    for sequence in 0..10 {
        let replaced = AudioChunkLineage {
            source_id: 204,
            source_generation: 2,
            ..frame_at(sequence)
        };
        writer.push_source_frame_samples(&twos, replaced, &sender, &mut dropped).unwrap();
    }
    let chunk = receiver.try_recv().unwrap();
    assert!(chunk.samples.iter().all(|sample| *sample == 2));
    assert_eq!(chunk.lineage.unwrap().source_generation, 2);
    assert!(receiver.try_recv().is_err());
}

#[test]
fn saturated_minutes_consumer_drops_without_blocking_microphone_worker() {
    let (sender, receiver) = crossbeam_channel::bounded(1);
    let mut dropped = 0u64;
    let chunk = || AudioChunk {
        samples: vec![0.25f32.to_bits(); CHUNK_SAMPLES],
        timestamp: Instant::now(),
        index: 0,
        source: SourceRole::Voice,
        lineage: None,
    };

    assert_eq!(deliver_chunk(&sender, chunk(), &mut dropped), Ok(()));
    let started = Instant::now();
    assert_eq!(deliver_chunk(&sender, chunk(), &mut dropped), Ok(()));
    assert!(started.elapsed() < std::time::Duration::from_millis(100));
    assert_eq!(dropped, 1);
    assert_eq!(receiver.len(), 1);

    drop(receiver);
    assert_eq!(deliver_chunk(&sender, chunk(), &mut dropped), Err(()));
    assert_eq!(dropped, 1);
}

#[test]
fn deliveries_are_counted_by_their_outcome() {
    let mut dropped = u64::MAX;
    assert_eq!(note_delivery(SendOutcome::Sent, &mut dropped), Ok(()));
    assert_eq!(dropped, u64::MAX);
    assert_eq!(note_delivery(SendOutcome::Full, &mut dropped), Ok(()));
    assert_eq!(dropped, 0);
    assert_eq!(note_delivery(SendOutcome::Disconnected, &mut dropped), Err(()));
}

#[test]
fn a_receiver_that_is_gone_is_an_error() {
    let (sender, receiver) = crossbeam_channel::bounded(1);
    drop(receiver);
    let mut dropped = 0u64;
    let mut writer = MicrophoneAudioChunkWriter::new();
    let ones = vec![1u32; SOURCE_FRAME_SAMPLES];
    for sequence in 0..9 {
        writer
            .push_source_frame_samples(&ones, frame_at(sequence), &sender, &mut dropped)
            .unwrap();
    }
    let error = writer
        .push_source_frame_samples(&ones, frame_at(9), &sender, &mut dropped)
        .err()
        .unwrap();
    assert_eq!(
        message(error),
        "deliver PocketStation microphone: Minutes stopped receiving microphone audio"
    );
}

#[test]
fn workers_end_on_failures_and_recover_from_source_failures() {
    let (sender, receiver) = crossbeam_channel::bounded(4);
    let mut worker = MicrophoneWorker::new(7, identity("device-uid", "Logi HFP"));
    assert!(worker.goes_on(false));
    assert!(!worker.goes_on(true));

    worker.note_session(SessionNotice::Source);
    worker.note_session(SessionNotice::Other);
    assert!(worker.source_failed && worker.goes_on(false));
    assert!(worker.note_measurements(&vec![snapshot(SignalState::MeetsCallerThresholds)]).is_some());
    assert_eq!(worker.observations.state, MicrophoneSignalState::SourceFailed);
    assert!(worker.observations.requires_recovery());

    worker.note_control(identity("fallback", "Desk"), &Err("busy".to_string()));
    assert!(!worker.source_failed);
    assert_eq!(worker.identity.device_id, "device-uid");
    worker.note_control(identity("fallback", "Desk"), &Ok((2, 1)));
    assert_eq!(worker.identity.device_id, "fallback");
    assert_eq!(worker.pending_format_continuity, Some((2, 1)));
    // A measurement of the source before the replacement is not reported as the new one.
    assert!(worker.note_measurements(&vec![snapshot(SignalState::MeetsCallerThresholds)]).is_none());
    let replaced = SourceSnapshot {
        replacement: Some((2, 1)),
        ..snapshot(SignalState::MeetsCallerThresholds)
    };
    let report = worker.note_measurements(&vec![replaced]).unwrap();
    assert_eq!(report["device_id"], "fallback");
    assert_eq!(report["source_generation"], 2);
    assert!(worker.pending_format_continuity.is_none());

    let frame = PolledFrame {
        sample_rate_hz: 48_000,
        channels: 1,
        sample_count: 480,
        mono: vec![0; 480],
        lineage: frame_at(0),
    };
    assert!(matches!(worker.note_frame(8, Some(&frame), &sender), FrameStep::Skipped));
    assert!(matches!(worker.note_frame(7, Some(&frame), &sender), FrameStep::Written));
    assert!(matches!(worker.note_frame(7, Some(&frame), &sender), FrameStep::Failed(_)));
    assert!(!worker.goes_on(false));
    drop(receiver);

    for notice in [
        SessionNotice::Endpoint,
        SessionNotice::Rollback,
        SessionNotice::Finalization,
        SessionNotice::LifecycleFailed,
        SessionNotice::TerminalFailed,
    ] {
        let mut ended = MicrophoneWorker::new(7, identity("device-uid", "Logi HFP"));
        ended.note_session(notice);
        assert!(ended.failed);
    }
    let mut unleased = MicrophoneWorker::new(7, identity("device-uid", "Logi HFP"));
    assert!(matches!(unleased.note_frame(7, None, &sender), FrameStep::InvalidLease));
    assert!(unleased.failed);
    let mut polled = MicrophoneWorker::new(7, identity("device-uid", "Logi HFP"));
    polled.note_poll_failure();
    assert!(polled.failed);
    let mut cancelled = MicrophoneWorker::new(7, identity("device-uid", "Logi HFP"));
    cancelled.note_cancellation(true);
    assert!(!cancelled.failed);
    cancelled.note_cancellation(false);
    assert!(cancelled.failed);
}

fn end(finished_in_time: bool, joined: bool, completed: bool, succeeded: bool) -> WorkerEnd {
    WorkerEnd {
        had_worker: true,
        finished_in_time,
        joined,
        cancel_completed: completed,
        cancel_succeeded: succeeded,
    }
}

#[test]
fn completed_but_unsuccessful_cancellation_is_not_reported_clean() {
    assert!(shutdown_is_clean(end(true, true, true, true)));
    assert!(!shutdown_is_clean(end(true, true, true, false)));
    assert!(!shutdown_is_clean(end(true, false, true, true)));
    assert!(!shutdown_is_clean(end(true, true, false, true)));
}

#[test]
fn shutdown_wait_is_bounded_when_worker_does_not_finish() {
    assert!(!shutdown_is_clean(end(false, true, true, true)));
    let gone = WorkerEnd { had_worker: false, ..end(false, false, true, true) };
    assert!(shutdown_is_clean(gone));
    assert!(!shutdown_is_clean(WorkerEnd { cancel_succeeded: false, ..gone }));
}

#[test]
fn control_replies_say_at_which_step_they_failed() {
    assert_eq!(control_result(ControlReply::Answered(Ok((2, 1)))).unwrap(), (2, 1));
    let failed = |reply| message(control_result(reply).err().unwrap());
    assert_eq!(
        failed(ControlReply::Answered(Err("busy".to_string()))),
        "apply PocketStation microphone control: busy"
    );
    assert_eq!(
        failed(ControlReply::NotAnswered("late".to_string())),
        "wait for PocketStation microphone control: late"
    );
    assert_eq!(
        failed(ControlReply::NotSent("full".to_string())),
        "send PocketStation microphone control: full"
    );
}
