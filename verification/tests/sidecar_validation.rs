use yap_capture::capture::{
    assemble_scan, check_committed_capture, check_recovered_partial, classify_commit,
    CaptureCommitManifest, CaptureSidecar, CaptureStatus, CommittedCapture, PartialCaptureSidecar,
    PartialRecoveryCommit, RecordingScan, ScanFinding,
};
use yap_capture::clock::{ClockMappingRevision, RecordingInput, RecordingRevisionTransition};
use yap_capture::frame::{AudioFrame, AudioGap, GapCause, PreparedFrame, TrackConfigurationRevision};
use yap_capture::journal::{CaptureJournal, SequenceGap, SequenceGapOverflow};
use yap_capture::session::{SessionId, SessionMetadata, TrackId, TriggerMode, UnixInstant};
use yap_capture::stream::{accept_input, complete_manifest, complete_sidecar, StreamLedger};

const AUDIO_SHA: &str = "0123456789abcdef0123456789abcdef0123456789abcdef0123456789abcdef";
const SIDECAR_SHA: &str = "fedcba9876543210fedcba9876543210fedcba9876543210fedcba9876543210";
const DIRECTORY: &str = "recordings";

fn track() -> TrackId {
    TrackId::new("live-microphone".to_string()).unwrap()
}

fn recording_revision(revision: u32, at_ms: u64, rate: u32, position: u64) -> RecordingInput {
    RecordingInput::RevisionTransition(
        RecordingRevisionTransition::new(
            TrackConfigurationRevision::new(track(), revision, at_ms, rate).unwrap(),
            ClockMappingRevision::new(track(), revision, position, at_ms).unwrap(),
        )
        .unwrap(),
    )
}

fn prepared_frame_at(session: &SessionId, sequence: u64, start_ms: u64, rate: u32) -> RecordingInput {
    RecordingInput::PreparedFrame(PreparedFrame {
        metadata: AudioFrame {
            session_id: session.clone(),
            track_id: track(),
            sequence,
            sample_rate_hz: rate,
            channels: 1,
            start_ms,
            duration_ms: 1,
            sample_count: 1,
        },
        pcm16: vec![0, 32],
    })
}

fn gap(session: &SessionId, dropped_frames: u64) -> RecordingInput {
    RecordingInput::Gap(AudioGap {
        session_id: session.clone(),
        track_id: track(),
        start_ms: 10,
        duration_ms: 10,
        source_position_frames: 160,
        dropped_frames,
        cause: GapCause::DeviceDiscontinuity,
        generation: 1,
    })
}

fn record(session: &SessionId, inputs: Vec<RecordingInput>) -> CaptureJournal {
    let mut ledger = StreamLedger::new(0);
    let mut journal = CaptureJournal::new(session.clone());
    for input in inputs {
        accept_input(&mut ledger, &mut journal, input).unwrap();
    }
    journal
}

fn finalize(session: &SessionId, journal: CaptureJournal) -> (CaptureSidecar, CaptureCommitManifest) {
    let metadata = SessionMetadata::dictation(
        session.clone(),
        UnixInstant::from_unix_secs(1_700_000_000),
        TriggerMode::PushToTalk,
        "linux",
    )
    .unwrap();
    let sidecar = complete_sidecar(journal, AUDIO_SHA.to_string(), 46, true, metadata.clone()).unwrap();
    let manifest = complete_manifest(
        session,
        AUDIO_SHA.to_string(),
        46,
        SIDECAR_SHA.to_string(),
        "2024-01-01T00:00:00Z".to_string(),
        metadata,
    )
    .unwrap();
    (sidecar, manifest)
}

fn scan(
    manifest: &CaptureCommitManifest,
    audio_sha256: &str,
    sidecar_sha256: &str,
    sidecar: &CaptureSidecar,
) -> RecordingScan {
    let complete = check_committed_capture(manifest, manifest.audio_bytes, audio_sha256, sidecar_sha256, sidecar)
        .map(|()| CommittedCapture {
            manifest: manifest.clone(),
            directory: DIRECTORY.to_string(),
        });
    let finding = classify_commit(
        manifest.session_id.clone(),
        DIRECTORY.to_string(),
        complete,
        Err("partial recovery commit has an unsupported shape".to_string()),
    );
    assemble_scan(vec![finding], DIRECTORY)
}

fn assert_hash_bound_sidecar_mutation_is_damaged<F>(label: &str, mutate: F)
where
    F: FnOnce(&mut CaptureSidecar),
{
    let session = SessionId::new(format!("s-{label}")).unwrap();
    let journal = record(
        &session,
        vec![recording_revision(1, 0, 16_000, 0), prepared_frame_at(&session, 0, 0, 16_000)],
    );
    let (mut sidecar, manifest) = finalize(&session, journal);
    assert_eq!(scan(&manifest, AUDIO_SHA, SIDECAR_SHA, &sidecar).complete.len(), 1);

    mutate(&mut sidecar);

    let scan = scan(&manifest, AUDIO_SHA, SIDECAR_SHA, &sidecar);
    assert!(scan.complete.is_empty(), "{label}");
    assert_eq!(scan.damaged.len(), 1, "{label}");
}

fn assert_hash_bound_gap_mutation_is_damaged<F>(label: &str, mutate: F)
where
    F: FnOnce(&mut CaptureSidecar),
{
    let session = SessionId::new(format!("s-{label}")).unwrap();
    let journal = record(
        &session,
        vec![
            recording_revision(1, 0, 16_000, 0),
            recording_revision(2, 10, 8_000, 160),
            gap(&session, 80),
            prepared_frame_at(&session, 0, 20, 8_000),
        ],
    );
    let (mut sidecar, manifest) = finalize(&session, journal);
    assert_eq!(scan(&manifest, AUDIO_SHA, SIDECAR_SHA, &sidecar).complete.len(), 1);

    mutate(&mut sidecar);

    let scan = scan(&manifest, AUDIO_SHA, SIDECAR_SHA, &sidecar);
    assert!(scan.complete.is_empty(), "{label}");
    assert_eq!(scan.damaged.len(), 1, "{label}");
}

#[test]
fn scanner_reports_audio_hash_and_sidecar_damage_separately() {
    for (label, corrupt) in [("damaged-audio-hash", "audio"), ("damaged-sidecar", "sidecar")] {
        let session = SessionId::new(format!("s-{label}")).unwrap();
        let journal = record(
            &session,
            vec![recording_revision(1, 0, 16_000, 0), prepared_frame_at(&session, 0, 0, 16_000)],
        );
        let (sidecar, manifest) = finalize(&session, journal);
        let (audio_sha, sidecar_sha) = match corrupt {
            "audio" => (SIDECAR_SHA, SIDECAR_SHA),
            _ => (AUDIO_SHA, AUDIO_SHA),
        };

        let scan = scan(&manifest, audio_sha, sidecar_sha, &sidecar);

        assert!(scan.complete.is_empty());
        assert!(scan.partial.is_empty());
        assert_eq!(scan.damaged.len(), 1, "{label}");
        assert_eq!(scan.damaged[0].session_id, session, "{label}");
        assert!(scan.damaged[0].reason.contains("Damaged complete"), "{label}");
    }
}

#[test]
fn scanner_rejects_hash_bound_invalid_timeline_metadata() {
    let session = SessionId::new("s-invalid-timeline-sidecar".to_string()).unwrap();
    let journal = record(
        &session,
        vec![
            recording_revision(1, 0, 16_000, 0),
            prepared_frame_at(&session, 0, 0, 16_000),
            gap(&session, 160),
        ],
    );
    let (mut sidecar, manifest) = finalize(&session, journal);
    sidecar.timeline_gaps[0].duration_ms = 0;

    let scan = scan(&manifest, AUDIO_SHA, SIDECAR_SHA, &sidecar);
    assert!(scan.complete.is_empty());
    assert_eq!(scan.damaged.len(), 1);
}

#[test]
fn scanner_rejects_a_recorded_track_without_coordinator_revisions() {
    assert_hash_bound_sidecar_mutation_is_damaged("missing-track-revisions", |sidecar| {
        sidecar.track_configurations.clear();
        sidecar.clock_mappings.clear();
    });
}

#[test]
fn scanner_rejects_a_configuration_without_its_latest_clock_mapping() {
    assert_hash_bound_sidecar_mutation_is_damaged("missing-latest-clock-mapping", |sidecar| {
        sidecar
            .track_configurations
            .push(TrackConfigurationRevision::new(track(), 2, 1, 16_000).unwrap());
    });
}

#[test]
fn scanner_rejects_hash_bound_sink_degradation() {
    assert_hash_bound_sidecar_mutation_is_damaged("sink-degraded", |sidecar| {
        sidecar.sink_degraded = true;
    });
}

#[test]
fn scanner_rejects_hash_bound_sequence_gap_metadata() {
    assert_hash_bound_sidecar_mutation_is_damaged("sequence-gap", |sidecar| {
        sidecar.sequence_gaps = vec![SequenceGap {
            track_id: "live-microphone".to_string(),
            first_sequence: 1,
            dropped_frames: 1,
        }];
    });
}

#[test]
fn scanner_rejects_hash_bound_sequence_gap_overflow() {
    assert_hash_bound_sidecar_mutation_is_damaged("sequence-gap-overflow", |sidecar| {
        sidecar.sequence_gap_overflow = Some(SequenceGapOverflow {
            detail_capacity: 1_024,
            omitted_gap_count: 1,
            omitted_dropped_frames: 1,
        });
    });
}

#[test]
fn scanner_rejects_hash_bound_malformed_sequence_coverage() {
    assert_hash_bound_sidecar_mutation_is_damaged("sequence-coverage", |sidecar| {
        sidecar.sequence_coverage[0].first_sequence = 2;
        sidecar.sequence_coverage[0].last_sequence = 1;
    });
}

#[test]
fn scanner_rejects_hash_bound_sequence_coverage_that_starts_after_zero() {
    assert_hash_bound_sidecar_mutation_is_damaged("sequence-prefix", |sidecar| {
        sidecar.sequence_coverage[0].first_sequence = 5;
        sidecar.sequence_coverage[0].last_sequence = 5;
    });
}

#[test]
fn scanner_rejects_hash_bound_mismatched_revision_transition_timestamp() {
    assert_hash_bound_sidecar_mutation_is_damaged("revision-timestamp", |sidecar| {
        sidecar.clock_mappings[0].session_time_ms = 1;
    });
}

#[test]
fn scanner_rejects_hash_bound_gap_with_wrong_duration() {
    assert_hash_bound_gap_mutation_is_damaged("gap-wrong-duration", |sidecar| {
        sidecar.timeline_gaps[0].duration_ms = 11;
    });
}

#[test]
fn scanner_rejects_hash_bound_gap_with_wrong_start() {
    assert_hash_bound_gap_mutation_is_damaged("gap-wrong-start", |sidecar| {
        sidecar.timeline_gaps[0].start_ms = 11;
    });
}

#[test]
fn scanner_rejects_hash_bound_gap_with_wrong_source_position() {
    assert_hash_bound_gap_mutation_is_damaged("gap-wrong-source", |sidecar| {
        sidecar.timeline_gaps[0].source_position_frames = 240;
    });
}

#[test]
fn scanner_rejects_hash_bound_gap_with_wrong_applicable_revision() {
    assert_hash_bound_gap_mutation_is_damaged("gap-wrong-revision", |sidecar| {
        sidecar.clock_mappings[1].source_position_frames = 240;
    });
}

#[test]
fn a_trusted_commit_is_listed_complete_with_its_manifest() {
    let session = SessionId::new("s-complete".to_string()).unwrap();
    let journal = record(
        &session,
        vec![recording_revision(1, 0, 16_000, 0), prepared_frame_at(&session, 0, 0, 16_000)],
    );
    let (sidecar, manifest) = finalize(&session, journal);
    let scan = scan(&manifest, AUDIO_SHA, SIDECAR_SHA, &sidecar);
    assert_eq!(scan.len(), 1);
    assert_eq!(scan.complete[0].manifest, manifest);
    assert_eq!(scan.complete[0].directory, DIRECTORY);
    assert!(scan.damaged.is_empty());
    assert!(check_committed_capture(&manifest, 47, AUDIO_SHA, SIDECAR_SHA, &sidecar).is_err());
}

fn partial_commit(session: &SessionId) -> PartialRecoveryCommit {
    PartialRecoveryCommit {
        schema_version: 1,
        session_id: session.clone(),
        status: CaptureStatus::Partial,
        audio_file: format!("live-{}.wav", session.as_str()),
        audio_sha256: AUDIO_SHA.to_string(),
        audio_bytes: 46,
        capture_sidecar_file: format!("live-{}.capture.partial.json", session.as_str()),
        capture_sidecar_sha256: SIDECAR_SHA.to_string(),
        committed_at_utc: "2024-01-01T00:00:00Z".to_string(),
    }
}

#[test]
fn recovered_partial_commits_are_checked_against_their_files() {
    let session = SessionId::new("s-recovered".to_string()).unwrap();
    let commit = partial_commit(&session);
    let sidecar = PartialCaptureSidecar {
        schema_version: 1,
        session_id: session.clone(),
        status: CaptureStatus::Partial,
    };
    assert!(check_recovered_partial(&commit, &session, 46, AUDIO_SHA, SIDECAR_SHA, &sidecar).is_ok());

    let other = SessionId::new("s-other".to_string()).unwrap();
    assert_eq!(
        check_recovered_partial(&commit, &other, 46, AUDIO_SHA, SIDECAR_SHA, &sidecar),
        Err("partial recovery commit session does not match its file name".to_string())
    );
    assert_eq!(
        check_recovered_partial(&commit, &session, 48, AUDIO_SHA, SIDECAR_SHA, &sidecar),
        Err("partial recovery artifact hash does not match the commit".to_string())
    );
    let complete_sidecar = PartialCaptureSidecar {
        status: CaptureStatus::Complete,
        ..sidecar.clone()
    };
    assert_eq!(
        check_recovered_partial(&commit, &session, 46, AUDIO_SHA, SIDECAR_SHA, &complete_sidecar),
        Err("partial recovery sidecar does not match the commit".to_string())
    );
    let mut wrong_shape = commit.clone();
    wrong_shape.audio_bytes = 43;
    assert!(check_recovered_partial(&wrong_shape, &session, 43, AUDIO_SHA, SIDECAR_SHA, &sidecar).is_err());
}

#[test]
fn refused_complete_commits_are_recovered_partial_or_damaged() {
    let session = SessionId::new("s-classified".to_string()).unwrap();
    let recovered = classify_commit(
        session.clone(),
        DIRECTORY.to_string(),
        Err("bad".to_string()),
        Ok(()),
    );
    assert!(matches!(recovered, ScanFinding::RecoveredPartial(ref r) if r.session_id == session));
    let long_error = "x".repeat(200);
    match classify_commit(session.clone(), DIRECTORY.to_string(), Err(long_error), Err("no".to_string())) {
        ScanFinding::Damaged(damaged) => {
            assert_eq!(damaged.reason, format!("Damaged complete capture commit: {}", "x".repeat(160)));
            assert_eq!(damaged.session_id, session);
        }
        other => panic!("unexpected finding {other:?}"),
    }
}
