use yap_capture::capture::{
    assemble_scan, classify_commit, CaptureStatus, CommittedCapture, PartialCaptureLineage,
    ScanFinding,
};
use yap_capture::artifacts::{artifact_file_name, RecordingArtifact};
use yap_capture::journal::CaptureJournal;
use yap_capture::clock::{ClockMappingRevision, RecordingInput, RecordingRevisionTransition};
use yap_capture::frame::{AudioFrame, PreparedFrame, TrackConfigurationRevision};
use yap_capture::replay::{recover_journal, JournalLine, JournalRecord};
use yap_capture::session::{SessionId, SessionMetadata, TrackId, TriggerMode, UnixInstant};
use yap_capture::stream::{
    complete_manifest, complete_sidecar, FinalizeStep, JournalAppend, StreamingRecording, MAX_JOURNAL_BYTES,
    MAX_JOURNAL_TERMINAL_BYTES,
};

const SHA: &str = "0123456789abcdef0123456789abcdef0123456789abcdef0123456789abcdef";

fn track() -> TrackId {
    TrackId::new("live-microphone".to_string()).unwrap()
}

fn recording_revision(revision: u32, at_ms: u64, rate: u32, position: u64) -> RecordingInput {
    RecordingInput::RevisionTransition(
        RecordingRevisionTransition::new(
            TrackConfigurationRevision::new(track(), revision, at_ms, rate).unwrap(),
            ClockMappingRevision::new(track(), revision, position, at_ms).unwrap(),
        )
        .unwrap(),
    )
}

fn prepared_frame_at(session: &SessionId, sequence: u64, start_ms: u64) -> RecordingInput {
    RecordingInput::PreparedFrame(PreparedFrame {
        metadata: AudioFrame {
            session_id: session.clone(),
            track_id: track(),
            sequence,
            sample_rate_hz: 16_000,
            channels: 1,
            start_ms,
            duration_ms: 1,
            sample_count: 1,
        },
        pcm16: vec![0, 32],
    })
}

fn create(session: &SessionId) -> StreamingRecording {
    let metadata = SessionMetadata::dictation(
        session.clone(),
        UnixInstant::from_unix_secs(1_700_000_000),
        TriggerMode::PushToTalk,
        "linux",
    )
    .unwrap();
    StreamingRecording::create(metadata, 256)
}

fn lineage(session: &SessionId) -> PartialCaptureLineage {
    PartialCaptureLineage {
        capture_sidecar_file: format!("live-{}.capture.partial.json", session.as_str()),
        capture_sidecar_sha256: SHA.to_string(),
    }
}

fn line(record: JournalRecord) -> JournalLine {
    JournalLine {
        text: "{}".to_string(),
        record: Ok(record),
    }
}

/// Takes one input as the recording worker does: a refused input is
/// recorded as the recording's failure.
fn worker_append(recording: &mut StreamingRecording, input: RecordingInput) {
    let appended = recording.append_input(input).map(|_| ());
    recording.worker_input_outcome(appended);
}

#[test]
fn nonempty_audio_without_timeline_metadata_cannot_publish_complete() {
    let session = SessionId::new("s-nonempty-audio-without-metadata".to_string()).unwrap();
    let mut recording = create(&session);
    let added = recording.ledger.plan_pcm16_append(2).unwrap();
    recording.ledger.record_pcm16_written(added);

    assert_eq!(recording.finalize(), FinalizeStep::Commit);
    let refused = complete_sidecar(
        recording.journal.clone(),
        SHA.to_string(),
        44 + recording.ledger.data_bytes,
        true,
        recording.session_metadata.clone(),
    )
    .unwrap_err();
    recording.abort(refused);
    recording.finalized_partial(Ok(lineage(&session)));
    let result = recording.finalized.clone().unwrap();

    assert_eq!(result.status, CaptureStatus::Partial);
    assert!(result.committed.is_none());
    let scan = assemble_scan(vec![ScanFinding::PrivateArtifact(session)], "recordings");
    assert!(scan.complete.is_empty());
}

#[test]
fn scanner_reports_damaged_complete_commit_with_residual_private_artifacts() {
    let session = SessionId::new("s-damaged-commit-scan".to_string()).unwrap();
    let damaged = classify_commit(
        session.clone(),
        "recordings".to_string(),
        Err("Failed to parse capture commit: key must be a string at line 1 column 2".to_string()),
        Err("Failed to parse partial recovery commit: key must be a string".to_string()),
    );
    let scan = assemble_scan(
        vec![ScanFinding::PrivateArtifact(session.clone()), damaged],
        "recordings",
    );

    assert!(scan.complete.is_empty());
    assert!(scan.partial.is_empty());
    assert_eq!(scan.damaged.len(), 1);
    assert_eq!(scan.damaged[0].session_id, session);
    assert!(scan.damaged[0].reason.contains("parse"));
}

#[test]
fn rejects_pcm_that_exceeds_wav_u32_data_length_without_wrapping() {
    let session = SessionId::new("s-limit".to_string()).unwrap();
    let mut recording = create(&session);
    recording.ledger.data_limit = 2;

    assert!(recording.ledger.plan_pcm16_append(4).is_err());
    assert_eq!(recording.finalize(), FinalizeStep::Partial);
    recording.finalized_partial(Ok(lineage(&session)));
    assert_eq!(recording.finalized.unwrap().status, CaptureStatus::Partial);
}

#[test]
fn revision_transition_capacity_boundary_keeps_a_replayable_partial_prefix() {
    let session = SessionId::new("s-revision-transition-capacity-boundary".to_string()).unwrap();
    let mut recording = create(&session);
    let mut lines = vec![line(JournalRecord::Header(recording.journal.clone()))];
    recording.append_input(recording_revision(1, 0, 16_000, 0)).unwrap();
    lines.push(line(JournalRecord::Delta(recording.pending_journal_delta())));
    recording.journal_persisted(400);

    let transition_bytes = 500;
    recording.ledger.journal_bytes = MAX_JOURNAL_BYTES - MAX_JOURNAL_TERMINAL_BYTES - transition_bytes + 1;
    recording.append_input(recording_revision(2, 10, 48_000, 480)).unwrap();
    assert_eq!(recording.ledger.plan_journal_append(transition_bytes), Ok(JournalAppend::Stop));
    if recording.begin_journal_stop(100) {
        recording.ledger.record_terminal_written(100);
    }
    let append_error = recording.ledger.finish_journal_stop("journal size limit reached");

    let recovered = recover_journal(None, lines, true).unwrap();
    assert!(append_error.contains("journal durability stopped"));
    assert_eq!(recovered.track_configurations.len(), 1);
    assert_eq!(recovered.clock_mappings.len(), 1);
    assert_eq!(recovered.track_configurations[0].revision, 1);
    assert_eq!(recovered.clock_mappings[0].revision, 1);
    assert_eq!(recording.finalize(), FinalizeStep::Partial);
}

#[test]
fn rejected_recording_control_event_is_terminal_for_the_worker() {
    let session = SessionId::new("s-worker-rejected-control".to_string()).unwrap();
    let mut recording = create(&session);
    worker_append(&mut recording, recording_revision(1, 0, 16_000, 0));
    worker_append(&mut recording, prepared_frame_at(&session, 0, 0));
    worker_append(&mut recording, recording_revision(3, 1, 16_000, 1));

    assert_eq!(recording.finalize(), FinalizeStep::Partial);
    recording.finalized_partial(Ok(lineage(&session)));
    let result = recording.finalized.unwrap();
    assert_eq!(result.status, CaptureStatus::Partial);
    assert!(result.committed.is_none());
    assert!(result
        .error
        .as_deref()
        .is_some_and(|error| error.contains("not monotonic")));
}

#[test]
fn prepared_frame_session_must_match_the_recording_session() {
    let session = SessionId::new("s-prepared-frame-session".to_string()).unwrap();
    let other_session = SessionId::new("s-other-prepared-frame-session".to_string()).unwrap();
    let mut recording = create(&session);
    recording.append_input(recording_revision(1, 0, 16_000, 0)).unwrap();

    let error = recording
        .append_input(prepared_frame_at(&other_session, 0, 0))
        .unwrap_err();
    assert_eq!(recording.finalize(), FinalizeStep::Partial);
    recording.finalized_partial(Ok(lineage(&session)));
    let result = recording.finalized.unwrap();

    assert_eq!(error, "recording prepared frame session does not match");
    assert_eq!(result.status, CaptureStatus::Partial);
    assert_eq!(result.error.as_deref(), Some(error.as_str()));
    assert!(result.committed.is_none());
}

#[test]
fn first_prepared_frame_sequence_must_be_zero() {
    let session = SessionId::new("s-prepared-frame-sequence-prefix".to_string()).unwrap();
    let mut recording = create(&session);
    recording.append_input(recording_revision(1, 0, 16_000, 0)).unwrap();

    let error = recording.append_input(prepared_frame_at(&session, 5, 0)).unwrap_err();
    assert_eq!(recording.finalize(), FinalizeStep::Partial);
    recording.finalized_partial(Ok(lineage(&session)));
    let result = recording.finalized.unwrap();

    assert_eq!(error, "recording track sequence must start at zero");
    assert_eq!(result.status, CaptureStatus::Partial);
    assert_eq!(result.error.as_deref(), Some(error.as_str()));
    assert!(result.committed.is_none());
}

#[test]
fn sequence_discontinuity_keeps_later_audio_but_cannot_publish_complete() {
    let session = SessionId::new("s-worker-sequence-discontinuity".to_string()).unwrap();
    let mut recording = create(&session);
    let mut audio_bytes = 44;
    for input in [
        recording_revision(1, 0, 16_000, 0),
        prepared_frame_at(&session, 0, 0),
        prepared_frame_at(&session, 2, 1),
        prepared_frame_at(&session, 3, 2),
    ] {
        if let Ok(yap_capture::stream::InputWrite::Pcm16(pcm)) = recording.append_input(input) {
            let added = recording.ledger.plan_pcm16_append(pcm.len()).unwrap();
            recording.ledger.record_pcm16_written(added);
            audio_bytes += added;
        }
    }

    assert!(recording.journal.sink_degraded);
    assert_eq!(recording.finalize(), FinalizeStep::Partial);
    recording.finalized_partial(Ok(lineage(&session)));
    let result = recording.finalized.unwrap();
    assert_eq!(result.status, CaptureStatus::Partial);
    assert!(result.committed.is_none());
    assert!(result
        .error
        .as_deref()
        .is_some_and(|error| error.contains("sequence")));
    assert_eq!(audio_bytes, 50);
}

#[test]
fn aborted_capture_open_is_partial_but_successful_zero_duration_is_complete() {
    let failed_session = SessionId::new("s-capture-open-failed".to_string()).unwrap();
    let mut failed = create(&failed_session);
    failed.abort("capture adapter could not open".to_string());
    assert_eq!(failed.finalize(), FinalizeStep::Partial);
    failed.finalized_partial(Ok(lineage(&failed_session)));
    let failed_result = failed.finalized.clone().unwrap();

    assert_eq!(failed_result.status, CaptureStatus::Partial);
    assert!(failed_result.committed.is_none());
    let failed_scan = assemble_scan(
        vec![ScanFinding::PrivateArtifact(failed_session)],
        "recordings",
    );
    assert_eq!(failed_scan.complete.len(), 0);
    assert_eq!(failed_scan.partial.len(), 1);

    let complete_session = SessionId::new("s-capture-zero-duration".to_string()).unwrap();
    let mut complete = create(&complete_session);
    assert_eq!(complete.finalize(), FinalizeStep::Commit);
    let sidecar = complete_sidecar(
        complete.journal.clone(),
        SHA.to_string(),
        44,
        true,
        complete.session_metadata.clone(),
    )
    .unwrap();
    let manifest = complete_manifest(
        &sidecar.session_id,
        SHA.to_string(),
        44,
        SHA.to_string(),
        "2023-11-14T22:13:20Z".to_string(),
        complete.session_metadata.clone(),
    )
    .unwrap();
    complete.finalized_complete(manifest.clone(), "recordings".to_string());

    assert_eq!(
        complete.finalized.clone().unwrap().status,
        CaptureStatus::Complete
    );
    let complete_scan = assemble_scan(
        vec![ScanFinding::Committed(CommittedCapture {
            manifest,
            directory: "recordings".to_string(),
        })],
        "recordings",
    );
    assert_eq!(complete_scan.complete.len(), 1);
}

#[test]
fn journal_coalesces_four_hours_of_contiguous_sequence_coverage() {
    let session = SessionId::new("s-journal".to_string()).unwrap();
    let mut journal = CaptureJournal::new(session);
    for sequence in 0..(4 * 60 * 60 * 10) {
        journal.observe_frame("live-microphone", 16_000, 1, sequence, 0);
    }

    assert_eq!(journal.sequence_coverage.len(), 1);
    assert_eq!(journal.sequence_coverage[0].first_sequence, 0);
    assert_eq!(journal.sequence_coverage[0].last_sequence, 4 * 60 * 60 * 10 - 1);
    assert!(journal.sequence_gaps.is_empty());
}

#[test]
fn streamed_pcm_finalizes_only_after_a_commit_manifest() {
    let session = SessionId::new("s-commit-last".to_string()).unwrap();
    let mut recording = create(&session);
    recording.append_input(recording_revision(1, 0, 16_000, 0)).unwrap();
    if let yap_capture::stream::InputWrite::Pcm16(pcm) =
        recording.append_input(prepared_frame_at(&session, 0, 0)).unwrap()
    {
        let added = recording.ledger.plan_pcm16_append(pcm.len()).unwrap();
        recording.ledger.record_pcm16_written(added);
    }

    let pending = assemble_scan(vec![ScanFinding::PrivateArtifact(session.clone())], "recordings");
    assert!(pending.complete.is_empty());
    assert_eq!(pending.partial.len(), 1);

    assert_eq!(recording.finalize(), FinalizeStep::Commit);
    let audio_bytes = 44 + recording.ledger.data_bytes;
    let sidecar = complete_sidecar(
        recording.journal.clone(),
        SHA.to_string(),
        audio_bytes,
        true,
        recording.session_metadata.clone(),
    )
    .unwrap();
    let manifest = complete_manifest(
        &sidecar.session_id,
        SHA.to_string(),
        audio_bytes,
        SHA.to_string(),
        "2023-11-14T22:13:20Z".to_string(),
        recording.session_metadata.clone(),
    )
    .unwrap();
    recording.finalized_complete(manifest.clone(), "recordings".to_string());
    let completed = recording.finalized.clone().unwrap();

    assert_eq!(completed.status, CaptureStatus::Complete, "{:?}", completed.error);
    let scan = assemble_scan(
        vec![ScanFinding::Committed(CommittedCapture {
            manifest,
            directory: "recordings".to_string(),
        })],
        "recordings",
    );
    assert_eq!(scan.complete.len(), 1);
    assert_eq!(
        artifact_file_name(&session, RecordingArtifact::Commit),
        format!("live-{}.commit.json", session.as_str())
    );
}

#[test]
fn worker_degrades_the_sink_on_refusals_and_discontinuities() {
    let session = SessionId::new("s-worker-sink".to_string()).unwrap();
    let mut recording = create(&session);
    let accepted = recording.append_input(recording_revision(1, 0, 16_000, 0)).map(|_| ());
    let actions = recording.worker_input_outcome(accepted);
    assert_eq!(actions.degrade_with, None);
    assert!(!actions.discontinuity);

    recording.append_input(prepared_frame_at(&session, 0, 0)).unwrap();
    let skipped = recording.append_input(prepared_frame_at(&session, 2, 2)).map(|_| ());
    let actions = recording.worker_input_outcome(skipped);
    assert_eq!(actions.degrade_with, None);
    assert!(actions.discontinuity);
    assert_eq!(
        yap_capture::stream::discontinuity_reason(),
        "recording sequence discontinuity"
    );

    let refused = recording.append_input(recording_revision(1, 5, 16_000, 80)).map(|_| ());
    let actions = recording.worker_input_outcome(refused);
    assert_eq!(
        actions.degrade_with,
        Some("recording track configuration is not monotonic".to_string())
    );
    assert_eq!(
        recording.ledger.failure,
        Some("recording track configuration is not monotonic".to_string())
    );
}
