use yap_capture::capture::CaptureStatus;
use yap_capture::clock::{ClockMappingRevision, RecordingInput, RecordingRevisionTransition};
use yap_capture::frame::{AudioFrame, PreparedFrame, TrackConfigurationRevision};
use yap_capture::journal::CaptureJournal;
use yap_capture::session::{SessionId, SessionMetadata, TrackId, TriggerMode, UnixInstant};
use yap_capture::capture::{CommittedCapture, PartialCaptureLineage};
use yap_capture::replay::{recover_journal, JournalLine, JournalRecord};
use yap_capture::stream::{
    accept_input, complete_manifest, complete_sidecar, creation_failure, partial_finalize_error,
    FinalizeRoute, FinalizeStep, InputWrite, JournalAppend, StreamLedger, StreamingRecording,
    DEFAULT_SYNC_INTERVAL_SAMPLES, MAX_JOURNAL_BYTES, MAX_JOURNAL_RECORD_BYTES,
    MAX_JOURNAL_TERMINAL_BYTES, WAV_DATA_LIMIT,
};

const SHA: &str = "0123456789abcdef0123456789abcdef0123456789abcdef0123456789abcdef";
const OTHER_SHA: &str = "fedcba9876543210fedcba9876543210fedcba9876543210fedcba9876543210";

fn session() -> SessionId {
    SessionId::new("s-stream".to_string()).unwrap()
}

fn track() -> TrackId {
    TrackId::new("live-microphone".to_string()).unwrap()
}

fn transition(revision: u32, at_ms: u64, rate: u32, position: u64) -> RecordingRevisionTransition {
    RecordingRevisionTransition::new(
        TrackConfigurationRevision::new(track(), revision, at_ms, rate).unwrap(),
        ClockMappingRevision::new(track(), revision, position, at_ms).unwrap(),
    )
    .unwrap()
}

fn frame(session_id: SessionId, sequence: u64) -> PreparedFrame {
    PreparedFrame {
        metadata: AudioFrame {
            session_id,
            track_id: track(),
            sequence,
            sample_rate_hz: 16_000,
            channels: 1,
            start_ms: sequence * 10,
            duration_ms: 10,
            sample_count: 160,
        },
        pcm16: vec![0; 320],
    }
}

fn metadata() -> SessionMetadata {
    SessionMetadata::dictation(
        session(),
        UnixInstant::from_unix_secs(1_700_000_000),
        TriggerMode::PushToTalk,
        "linux",
    )
    .unwrap()
}

fn recorded_journal() -> (StreamLedger, CaptureJournal) {
    let mut ledger = StreamLedger::new(100);
    let mut journal = CaptureJournal::new(session());
    assert_eq!(
        accept_input(&mut ledger, &mut journal, RecordingInput::RevisionTransition(transition(1, 0, 16_000, 0))),
        Ok(InputWrite::Journal)
    );
    for sequence in 0..3 {
        assert_eq!(
            accept_input(&mut ledger, &mut journal, RecordingInput::PreparedFrame(frame(session(), sequence))),
            Ok(InputWrite::Pcm16(vec![0; 320]))
        );
    }
    (ledger, journal)
}

#[test]
fn a_new_ledger_starts_empty_with_the_default_limits() {
    let ledger = StreamLedger::new(512);
    assert_eq!(ledger.journal_bytes, 512);
    assert_eq!(ledger.data_bytes, 0);
    assert_eq!(ledger.sync_interval_samples, DEFAULT_SYNC_INTERVAL_SAMPLES);
    assert_eq!(ledger.data_limit, WAV_DATA_LIMIT);
    assert_eq!(ledger.data_limit, u32::MAX as u64);
    assert!(ledger.failure.is_none());
}

#[test]
fn odd_pcm_appends_fail_the_recording_for_good() {
    let mut ledger = StreamLedger::new(0);
    assert_eq!(
        ledger.plan_pcm16_append(3),
        Err("PCM16 append has an odd byte length".to_string())
    );
    assert_eq!(
        ledger.plan_pcm16_append(2),
        Err("PCM16 append has an odd byte length".to_string())
    );
    assert_eq!(ledger.data_bytes, 0);
}

#[test]
fn appends_past_the_wav_limit_are_refused() {
    let mut ledger = StreamLedger::new(0);
    ledger.data_bytes = WAV_DATA_LIMIT - 1;
    assert_eq!(
        ledger.plan_pcm16_append(2),
        Err("Live recording exceeds the WAV 32-bit data-length limit".to_string())
    );
    let mut fits = StreamLedger::new(0);
    fits.data_bytes = WAV_DATA_LIMIT - 3;
    assert_eq!(fits.plan_pcm16_append(2), Ok(2));
    assert!(fits.failure.is_none());
}

#[test]
fn a_flush_is_due_once_per_sync_interval() {
    let mut ledger = StreamLedger::new(0);
    let added = ledger.plan_pcm16_append(31_998).unwrap();
    assert!(!ledger.record_pcm16_written(added));
    assert_eq!(ledger.samples_since_sync, 15_999);
    let added = ledger.plan_pcm16_append(2).unwrap();
    assert!(ledger.record_pcm16_written(added));
    assert_eq!(ledger.data_bytes, 32_000);
    ledger.record_flushed();
    assert_eq!(ledger.samples_since_sync, 0);
    assert_eq!(ledger.data_bytes, 32_000);
}

#[test]
fn four_hour_journal_growth_stops_at_the_explicit_hard_limit() {
    let mut ledger = StreamLedger::new(200);
    let mut journal = CaptureJournal::new(session());
    let record = 1_000;
    let mut written = 0;
    let terminal_error = loop {
        match ledger.plan_journal_append(record).unwrap() {
            JournalAppend::Write => {
                ledger.record_journal_written(record);
                written += 1;
            }
            JournalAppend::Stop => {
                if ledger.begin_journal_stop(&mut journal, 300) {
                    ledger.record_terminal_written(300);
                }
                break ledger.finish_journal_stop("journal size limit reached");
            }
        }
    };

    assert_eq!(written, 126);
    assert_eq!(ledger.journal_bytes, 200 + 126 * 1_000 + 300);
    assert!(ledger.journal_bytes <= MAX_JOURNAL_BYTES);
    assert!(journal.sink_degraded);
    assert!(ledger.journal_growth_stopped);
    assert!(ledger.journal_terminal_written);
    assert_eq!(
        terminal_error,
        "recording journal durability stopped: journal size limit reached"
    );
    assert_eq!(ledger.plan_journal_append(10), Err(terminal_error));
}

#[test]
fn an_oversized_record_stops_growth_and_the_terminal_record_is_written_once() {
    let mut ledger = StreamLedger::new(0);
    assert_eq!(
        ledger.plan_journal_append(MAX_JOURNAL_RECORD_BYTES + 1),
        Ok(JournalAppend::Stop)
    );
    let mut journal = CaptureJournal::new(session());
    ledger.journal_terminal_written = true;
    assert!(!ledger.begin_journal_stop(&mut journal, 10));
    let mut full = StreamLedger::new(MAX_JOURNAL_BYTES - MAX_JOURNAL_TERMINAL_BYTES);
    assert_eq!(full.plan_journal_append(1), Ok(JournalAppend::Stop));
    assert!(!full.begin_journal_stop(&mut journal, MAX_JOURNAL_TERMINAL_BYTES + 1));
    assert!(full.begin_journal_stop(&mut journal, MAX_JOURNAL_TERMINAL_BYTES));
}

#[test]
fn stopped_growth_refuses_later_records_with_its_own_error() {
    let mut ledger = StreamLedger::new(0);
    ledger.journal_growth_stopped = true;
    assert_eq!(
        ledger.plan_journal_append(1),
        Err("recording journal durability is unavailable".to_string())
    );
    assert_eq!(
        ledger.plan_journal_append(1),
        Err("recording journal durability is unavailable".to_string())
    );
}

#[test]
fn repeated_journal_write_failure_returns_the_cached_terminal_error() {
    let mut ledger = StreamLedger::new(0);
    let first = ledger.fail("Failed to append recording journal: disk full".to_string());
    let second = ledger.fail("Failed to sync recording journal: io".to_string());
    assert_eq!(first, second);
    assert_eq!(ledger.plan_journal_append(1), Err(first.clone()));
    assert_eq!(ledger.plan_pcm16_append(2), Err(first));
}

#[test]
fn finalization_routes_by_failure_and_degradation() {
    let mut clean = StreamLedger::new(0);
    assert_eq!(clean.begin_finalize(false), FinalizeRoute::Commit);
    assert!(clean.failure.is_none());

    let mut degraded = StreamLedger::new(0);
    assert_eq!(degraded.begin_finalize(true), FinalizeRoute::Partial);
    assert_eq!(
        degraded.failure.as_deref(),
        Some("recording sequence metadata is degraded")
    );

    let mut failed = StreamLedger::new(0);
    failed.fail("first".to_string());
    assert_eq!(failed.begin_finalize(true), FinalizeRoute::Partial);
    assert_eq!(failed.failure.as_deref(), Some("first"));
}

#[test]
fn partial_errors_combine_the_failure_and_the_lineage_error() {
    assert_eq!(partial_finalize_error(None, None), None);
    assert_eq!(
        partial_finalize_error(Some("audio lost".into()), None),
        Some("audio lost".into())
    );
    assert_eq!(
        partial_finalize_error(Some("audio lost".into()), Some("disk full".into())),
        Some("audio lost; failed to publish partial capture lineage: disk full".into())
    );
    assert_eq!(
        partial_finalize_error(None, Some("disk full".into())),
        Some("Failed to publish partial capture lineage: disk full".into())
    );
}

#[test]
fn inputs_enter_the_journal_in_order() {
    let (mut ledger, mut journal) = recorded_journal();
    assert_eq!(journal.tracks.len(), 1);
    assert_eq!(journal.sequence_coverage[0].last_sequence, 2);

    let error = accept_input(
        &mut ledger,
        &mut journal,
        RecordingInput::PreparedFrame(frame(SessionId::new("s-other".to_string()).unwrap(), 3)),
    )
    .unwrap_err();
    assert_eq!(error, "recording prepared frame session does not match");
    assert_eq!(ledger.failure.as_deref(), Some(error.as_str()));
    assert_eq!(
        accept_input(&mut ledger, &mut journal, RecordingInput::PreparedFrame(frame(session(), 3))),
        Err(error)
    );
    assert_eq!(journal.sequence_coverage[0].last_sequence, 2);
}

#[test]
fn a_track_must_start_at_sequence_zero() {
    let mut ledger = StreamLedger::new(0);
    let mut journal = CaptureJournal::new(session());
    assert_eq!(
        accept_input(&mut ledger, &mut journal, RecordingInput::PreparedFrame(frame(session(), 5))),
        Err("recording track sequence must start at zero".to_string())
    );
    assert!(journal.sequence_coverage.is_empty());
}

#[test]
fn refused_transitions_leave_the_recording_as_it_was() {
    let (mut ledger, mut journal) = recorded_journal();
    let result = accept_input(
        &mut ledger,
        &mut journal,
        RecordingInput::RevisionTransition(transition(3, 10, 16_000, 160)),
    );
    assert!(result.is_err());
    assert!(ledger.failure.is_none());
    assert_eq!(journal.track_configurations.len(), 1);
    assert_eq!(
        accept_input(
            &mut ledger,
            &mut journal,
            RecordingInput::RevisionTransition(transition(2, 10, 48_000, 160))
        ),
        Ok(InputWrite::Journal)
    );
    assert_eq!(journal.track_configurations.len(), 2);
    assert_eq!(journal.clock_mappings.len(), 2);
}

#[test]
fn a_clean_journal_becomes_the_published_sidecar_and_manifest() {
    let (_, journal) = recorded_journal();
    let sidecar = complete_sidecar(journal, SHA.to_string(), 44 + 960, true, metadata()).unwrap();
    assert_eq!(sidecar.audio_file, "live-s-stream.wav");
    assert_eq!(sidecar.audio_bytes, 1_004);
    assert_eq!(sidecar.tracks.len(), 1);
    assert!(sidecar.directory_sync_supported);

    let manifest = complete_manifest(
        &sidecar.session_id,
        sidecar.audio_sha256.clone(),
        sidecar.audio_bytes,
        OTHER_SHA.to_string(),
        "2023-11-14T22:13:20Z".to_string(),
        metadata(),
    )
    .unwrap();
    assert_eq!(manifest.status, CaptureStatus::Complete);
    assert_eq!(manifest.audio_file, "live-s-stream.wav");
    assert_eq!(manifest.capture_sidecar_file, "live-s-stream.capture.json");
    assert_eq!(manifest.capture_sidecar_sha256, OTHER_SHA);
    assert!(manifest.validate().is_ok());
    assert!(sidecar.validate(&manifest).is_ok());
}

#[test]
fn degraded_or_silent_journals_are_not_published_complete() {
    let (_, mut degraded) = recorded_journal();
    degraded.sink_degraded = true;
    assert!(complete_sidecar(degraded, SHA.to_string(), 1_004, true, metadata()).is_err());

    let empty = CaptureJournal::new(session());
    assert_eq!(
        complete_sidecar(empty, SHA.to_string(), 46, true, metadata()).unwrap_err(),
        "nonempty recording audio has no frame metadata"
    );
    let header_only = CaptureJournal::new(session());
    assert!(complete_sidecar(header_only, SHA.to_string(), 44, true, metadata()).is_ok());
}

#[test]
fn manifests_need_hashes_a_header_and_a_commit_time() {
    let id = session();
    let make = |audio_sha: &str, bytes: u64, sidecar_sha: &str, at: &str| {
        complete_manifest(
            &id,
            audio_sha.to_string(),
            bytes,
            sidecar_sha.to_string(),
            at.to_string(),
            metadata(),
        )
    };
    assert!(make(SHA, 44, OTHER_SHA, "2023-11-14T22:13:20Z").is_ok());
    assert!(make("abc", 44, OTHER_SHA, "2023-11-14T22:13:20Z").is_err());
    assert!(make(SHA, 43, OTHER_SHA, "2023-11-14T22:13:20Z").is_err());
    assert!(make(SHA, 44, &SHA.to_uppercase(), "2023-11-14T22:13:20Z").is_ok());
    assert!(make(SHA, 44, &SHA[1..], "2023-11-14T22:13:20Z").is_err());
    assert!(make(SHA, 44, OTHER_SHA, "yesterday").is_err());
    let foreign = SessionMetadata::dictation(
        SessionId::new("s-other".to_string()).unwrap(),
        UnixInstant::from_unix_secs(1_700_000_000),
        TriggerMode::PushToTalk,
        "linux",
    )
    .unwrap();
    assert!(complete_manifest(
        &id,
        SHA.to_string(),
        44,
        OTHER_SHA.to_string(),
        "2023-11-14T22:13:20Z".to_string(),
        foreign
    )
    .is_err());
}

fn record_line(record: JournalRecord) -> JournalLine {
    JournalLine {
        text: "{}".to_string(),
        record: Ok(record),
    }
}

#[test]
fn a_created_recording_is_empty_and_durable() {
    let recording = StreamingRecording::create(metadata(), 256);
    assert_eq!(recording.journal.session_id, session());
    assert!(recording.journal.tracks.is_empty());
    assert_eq!(recording.ledger.journal_bytes, 256);
    assert!(recording.finalized.is_none());
    assert!(recording.journal_durable.tracks.is_empty());
}

#[test]
fn persisted_records_replay_to_the_recording_journal() {
    let mut recording = StreamingRecording::create(metadata(), 256);
    let header = recording.journal.clone();
    let mut lines = vec![record_line(JournalRecord::Header(header))];
    let inputs = vec![
        RecordingInput::RevisionTransition(transition(1, 0, 16_000, 0)),
        RecordingInput::PreparedFrame(frame(session(), 0)),
        RecordingInput::PreparedFrame(frame(session(), 1)),
        RecordingInput::PreparedFrame(frame(session(), 4)),
    ];
    for input in inputs {
        recording.append_input(input).unwrap();
        let delta = recording.pending_journal_delta();
        assert_eq!(recording.ledger.plan_journal_append(300), Ok(JournalAppend::Write));
        recording.journal_persisted(300);
        lines.push(record_line(JournalRecord::Delta(delta)));
    }
    assert_eq!(recording.ledger.journal_bytes, 256 + 4 * 300);

    let recovered = recover_journal(None, lines, true).unwrap();
    assert_eq!(format!("{recovered:?}"), format!("{:?}", recording.journal));
    assert_eq!(recovered.sequence_gaps.len(), 1);
    assert!(recovered.sink_degraded);
}

#[test]
fn finalization_is_idempotent() {
    let mut recording = StreamingRecording::create(metadata(), 0);
    recording
        .append_input(RecordingInput::RevisionTransition(transition(1, 0, 16_000, 0)))
        .unwrap();
    recording
        .append_input(RecordingInput::PreparedFrame(frame(session(), 0)))
        .unwrap();
    assert_eq!(recording.finalize(), FinalizeStep::Commit);
    let sidecar = complete_sidecar(recording.journal.clone(), SHA.to_string(), 364, true, metadata()).unwrap();
    let manifest = complete_manifest(
        &sidecar.session_id,
        SHA.to_string(),
        364,
        OTHER_SHA.to_string(),
        "2023-11-14T22:13:20Z".to_string(),
        metadata(),
    )
    .unwrap();
    recording.finalized_complete(manifest.clone(), "recordings".to_string());
    let first = recording.finalized.clone().unwrap();

    assert_eq!(recording.finalize(), FinalizeStep::Finalized);
    let second = recording.finalized.clone().unwrap();
    assert_eq!(first, second);
    assert_eq!(first.status, CaptureStatus::Complete);
    assert_eq!(
        first.committed,
        Some(CommittedCapture {
            manifest,
            directory: "recordings".to_string()
        })
    );
    assert_eq!(first.capture_sidecar_sha256(), Some(OTHER_SHA));
}

#[test]
fn exhausted_journal_capacity_cannot_publish_complete_and_remains_recoverable() {
    let mut recording = StreamingRecording::create(metadata(), 256);
    let mut lines = vec![record_line(JournalRecord::Header(recording.journal.clone()))];
    recording
        .append_input(RecordingInput::RevisionTransition(transition(1, 0, 16_000, 0)))
        .unwrap();
    lines.push(record_line(JournalRecord::Delta(recording.pending_journal_delta())));
    recording.journal_persisted(300);
    recording.ledger.journal_bytes = MAX_JOURNAL_BYTES - MAX_JOURNAL_TERMINAL_BYTES;
    assert_eq!(recording.ledger.plan_journal_append(200), Ok(JournalAppend::Stop));
    if recording.begin_journal_stop(100) {
        recording.ledger.record_terminal_written(100);
    }
    let error = recording.ledger.finish_journal_stop("journal size limit reached");
    assert!(error.contains("journal durability stopped"));

    assert_eq!(recording.finalize(), FinalizeStep::Partial);
    recording.finalized_partial(Ok(PartialCaptureLineage {
        capture_sidecar_file: "live-s-stream.capture.partial.json".to_string(),
        capture_sidecar_sha256: SHA.to_string(),
    }));
    let result = recording.finalized.clone().unwrap();
    assert_eq!(result.status, CaptureStatus::Partial);
    assert!(result.committed.is_none());
    assert_eq!(result.error, Some(error));
    assert_eq!(result.capture_sidecar_sha256(), Some(SHA));
    let recovered = recover_journal(None, lines, true).unwrap();
    assert_eq!(recovered.session_id, session());
    assert_eq!(recovered.track_configurations.len(), 1);
}

#[test]
fn degraded_recordings_finalize_partial_and_report_lineage_failures() {
    let mut recording = StreamingRecording::create(metadata(), 0);
    recording
        .append_input(RecordingInput::RevisionTransition(transition(1, 0, 16_000, 0)))
        .unwrap();
    recording.append_input(RecordingInput::PreparedFrame(frame(session(), 0))).unwrap();
    recording.append_input(RecordingInput::PreparedFrame(frame(session(), 0))).unwrap();
    assert!(recording.journal.sink_degraded);
    assert_eq!(recording.finalize(), FinalizeStep::Partial);
    recording.finalized_partial(Err("disk full".to_string()));
    let result = recording.finalized.unwrap();
    assert_eq!(
        result.error.as_deref(),
        Some("recording sequence metadata is degraded; failed to publish partial capture lineage: disk full")
    );
    assert!(result.partial_lineage.is_none());
    assert_eq!(result.capture_sidecar_sha256(), None);
}

#[test]
fn an_aborted_recording_keeps_its_first_reason() {
    let mut recording = StreamingRecording::create(metadata(), 0);
    recording.abort("microphone unplugged".to_string());
    recording.abort("later".to_string());
    assert_eq!(recording.finalize(), FinalizeStep::Partial);
    assert_eq!(recording.ledger.failure.as_deref(), Some("microphone unplugged"));
    let failed = creation_failure(session(), "Failed to create live recordings folder".to_string());
    assert_eq!(failed.status, CaptureStatus::Partial);
    assert_eq!(failed.error.as_deref(), Some("Failed to create live recordings folder"));
    assert!(failed.committed.is_none() && failed.partial_lineage.is_none());
}

#[test]
fn records_persisted_after_several_inputs_replay_to_the_recording_journal() {
    let mut recording = StreamingRecording::create(metadata(), 256);
    let mut lines = vec![record_line(JournalRecord::Header(recording.journal.clone()))];
    recording
        .append_input(RecordingInput::RevisionTransition(transition(1, 0, 16_000, 0)))
        .unwrap();
    recording
        .append_input(RecordingInput::PreparedFrame(frame(session(), 0)))
        .unwrap();
    lines.push(record_line(JournalRecord::Delta(recording.pending_journal_delta())));
    recording.journal_persisted(300);
    for sequence in [1, 2, 5, 6] {
        recording
            .append_input(RecordingInput::PreparedFrame(frame(session(), sequence)))
            .unwrap();
    }
    recording
        .append_input(RecordingInput::RevisionTransition(transition(2, 10, 48_000, 480)))
        .unwrap();
    lines.push(record_line(JournalRecord::Delta(recording.pending_journal_delta())));
    recording.journal_persisted(300);

    let recovered = recover_journal(None, lines, true).unwrap();
    assert_eq!(format!("{recovered:?}"), format!("{:?}", recording.journal));
    assert_eq!(recovered.track_configurations.len(), 2);
    assert_eq!(recovered.sequence_coverage[0].last_sequence, 6);
    assert_eq!(recovered.sequence_gaps.len(), 1);
}
