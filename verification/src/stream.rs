//! The decisions of a streaming recording between its file operations: how
//! much audio and journal it may still write, when it flushes, when journal
//! growth stops, which failure it keeps, and what it publishes when it
//! finalizes.

use vstd::prelude::*;
use crate::artifacts::{artifact_file_name, artifact_suffix, is_artifact_basename, session_artifact_name, RecordingArtifact};
use crate::capture::{
    complete_sequence_metadata, manifest_valid, rfc3339_parses, validate_audio_metadata_presence,
    validate_sequence_metadata, CaptureCommitManifest, CaptureSidecar, CaptureStatus, CommittedCapture,
    PartialCaptureLineage, RecordingFinalizeResult,
};
use crate::durability::{
    delta_of, journal_consistent, journal_grew, law_degradation_keeps_growth, law_delta_replays_to_the_journal,
    law_every_input_keeps_growth, law_journal_growth_is_reflexive, law_journal_growth_is_transitive,
    same_journal,
};
use crate::replay::{delta_applied, delta_applies, durable_of, DurableJournalState, JournalDelta};
use crate::clock::{RecordingInput, RecordingRevisionTransition};
use crate::frame::AudioGap;
use crate::journal::{
    coverage_index, find_coverage, frame_observed, gap_observation, timeline_gap_recorded, transition_accepted, transition_recorded, transition_refusal, CaptureJournal,
    CAPTURE_SCHEMA_VERSION,
};
use crate::session::{SessionId, SessionMetadata};
use crate::sidecar::{timeline_metadata_valid, validate_timeline_control_metadata};
use crate::text::is_sha256_hex;
use crate::wav::{PCM16_BYTES_PER_SAMPLE, WAV_HEADER_BYTES};

verus! {

/// The hard bound on a recording journal's size.
pub const MAX_JOURNAL_BYTES: u64 = 131_072;
/// Room kept at the journal's end for its terminal overflow record.
pub const MAX_JOURNAL_TERMINAL_BYTES: u64 = 4_096;
/// The largest single journal record.
pub const MAX_JOURNAL_RECORD_BYTES: u64 = 65_536;
/// Samples appended between two flushes of audio and journal.
pub const DEFAULT_SYNC_INTERVAL_SAMPLES: u64 = 16_000;
/// Most sample bytes a recording may hold (the WAV format's 32-bit field).
pub const WAV_DATA_LIMIT: u64 = 4_294_967_295;

/// The failure a refused odd-length append records.
pub open spec fn odd_append_text() -> Seq<char> {
    "PCM16 append has an odd byte length"@
}

/// The failure an append past the data limit records.
pub open spec fn data_limit_text() -> Seq<char> {
    "Live recording exceeds the WAV 32-bit data-length limit"@
}

/// The failure of a journal write after its growth stopped.
pub open spec fn journal_unavailable_text() -> Seq<char> {
    "recording journal durability is unavailable"@
}

/// The failure that stopping journal growth records.
pub open spec fn journal_stopped_text(reason: Seq<char>) -> Seq<char> {
    "recording journal durability stopped: "@ + reason
}

/// The failure a recording with degraded sequence metadata is finalized with.
pub open spec fn degraded_text() -> Seq<char> {
    "recording sequence metadata is degraded"@
}

/// What a recording's decisions depend on: bytes written to the journal and
/// to the audio, samples since the last flush, the flush interval, the audio
/// limit, and the first failure, which every later operation reports.
#[derive(Debug, Clone, PartialEq, Eq)]
pub struct StreamLedger {
    pub journal_bytes: u64,
    pub journal_growth_stopped: bool,
    pub journal_terminal_written: bool,
    pub data_bytes: u64,
    pub samples_since_sync: u64,
    pub sync_interval_samples: u64,
    pub data_limit: u64,
    pub failure: Option<String>,
}

/// What the next journal record does.
#[derive(Debug, Clone, Copy, PartialEq, Eq, Structural)]
pub enum JournalAppend {
    /// Append and sync the record.
    Write,
    /// The record would not fit: stop journal growth instead.
    Stop,
}

/// How finalization proceeds.
#[derive(Debug, Clone, Copy, PartialEq, Eq, Structural)]
pub enum FinalizeRoute {
    /// Publish the complete recording.
    Commit,
    /// Publish the partial lineage with the recorded failure.
    Partial,
}

/// The failure kept after `error` is reported: the first one recorded.
pub open spec fn kept_failure(failure: Option<String>, error: String) -> String {
    match failure {
        Some(first) => first,
        None => error,
    }
}

/// A record of `record_bytes` does not fit after `journal_bytes`: it is too
/// large itself, or it would leave no room for the terminal record.
pub open spec fn journal_over_limit(journal_bytes: u64, record_bytes: u64) -> bool {
    record_bytes > MAX_JOURNAL_RECORD_BYTES
        || journal_bytes + record_bytes + MAX_JOURNAL_TERMINAL_BYTES > MAX_JOURNAL_BYTES
}

/// What `StreamLedger::plan_pcm16_append` decides for `pcm_len` bytes: the
/// kept failure, unchanged, after one; a recorded failure for an odd length
/// or past the data limit; otherwise the bytes it adds, nothing changed.
pub open spec fn pcm_append_planned(before: StreamLedger, pcm_len: usize, after: StreamLedger, r: Result<u64, String>) -> bool {
    &&& before.failure matches Some(e) ==> r == Err::<u64, String>(e) && after == before
    &&& before.failure is None && pcm_len % 2 == 1 ==> (r matches Err(e) && e@ == odd_append_text()
        && after.failure == Some(e))
    &&& before.failure is None && pcm_len % 2 == 0 && before.data_bytes + pcm_len > before.data_limit
        ==> (r matches Err(e) && e@ == data_limit_text() && after.failure == Some(e))
    &&& before.failure is None && pcm_len % 2 == 0 && before.data_bytes + pcm_len <= before.data_limit
        ==> r == Ok::<u64, String>(pcm_len as u64) && after == before
    &&& after.data_bytes == before.data_bytes
    &&& after.samples_since_sync == before.samples_since_sync
    &&& after.data_limit == before.data_limit
    &&& after.journal_bytes == before.journal_bytes
}

/// What `StreamLedger::plan_journal_append` decides for a record of
/// `record_bytes`: the kept failure, unchanged, after one; a recorded
/// failure once growth has stopped; otherwise `Stop` when the record does
/// not fit and `Write` when it does, nothing changed.
pub open spec fn journal_append_planned(
    before: StreamLedger,
    record_bytes: u64,
    after: StreamLedger,
    r: Result<JournalAppend, String>,
) -> bool {
    &&& before.failure matches Some(e) ==> r == Err::<JournalAppend, String>(e) && after == before
    &&& before.failure is None && before.journal_growth_stopped ==> (r matches Err(e)
        && e@ == journal_unavailable_text() && after.failure == Some(e))
    &&& before.failure is None && !before.journal_growth_stopped ==> after == before && r
        == Ok::<JournalAppend, String>(
        if journal_over_limit(before.journal_bytes, record_bytes) {
            JournalAppend::Stop
        } else {
            JournalAppend::Write
        },
    )
    &&& after.data_bytes == before.data_bytes
    &&& after.samples_since_sync == before.samples_since_sync
    &&& after.data_limit == before.data_limit
    &&& after.journal_bytes == before.journal_bytes
    &&& after.journal_terminal_written == before.journal_terminal_written
    &&& after.journal_growth_stopped == before.journal_growth_stopped
}

/// The first failure is the answer from then on: once one is recorded, a
/// journal append and then a PCM append both return that same failure and
/// change nothing; and a failure raised by an append is the one every later
/// append returns.
pub proof fn law_first_failure_repeats(
    l0: StreamLedger,
    record_bytes: u64,
    l1: StreamLedger,
    r1: Result<JournalAppend, String>,
    pcm_len: usize,
    l2: StreamLedger,
    r2: Result<u64, String>,
)
    requires
        journal_append_planned(l0, record_bytes, l1, r1),
        pcm_append_planned(l1, pcm_len, l2, r2),
    ensures
        l0.failure matches Some(e) ==> r1 == Err::<JournalAppend, String>(e) && r2 == Err::<u64, String>(e)
            && l2 == l0,
        r1 matches Err(e) ==> r2 == Err::<u64, String>(e) && l2 == l1,
{
}

/// A journal record that is planned to be written fits: it is within the
/// record bound and leaves room for the terminal record under the journal
/// bound, so the journal never outgrows `MAX_JOURNAL_BYTES`.
pub proof fn law_planned_journal_writes_stay_bounded(
    l0: StreamLedger,
    record_bytes: u64,
    l1: StreamLedger,
    r: Result<JournalAppend, String>,
)
    requires
        journal_append_planned(l0, record_bytes, l1, r),
        r == Ok::<JournalAppend, String>(JournalAppend::Write),
    ensures
        !journal_over_limit(l1.journal_bytes, record_bytes),
        record_bytes <= MAX_JOURNAL_RECORD_BYTES,
        l1.journal_bytes + record_bytes + MAX_JOURNAL_TERMINAL_BYTES <= MAX_JOURNAL_BYTES,
        l1 == l0,
{
}

/// Appending PCM and counting it written adds exactly its bytes and its
/// samples, keeps the ledger consistent, and keeps the audio within its
/// limit.
pub proof fn law_pcm_append_adds_its_bytes(
    l0: StreamLedger,
    pcm_len: usize,
    l1: StreamLedger,
    r: Result<u64, String>,
    l2: StreamLedger,
)
    requires
        l0.wf(),
        pcm_append_planned(l0, pcm_len, l1, r),
        r is Ok,
        l2.data_bytes == l1.data_bytes + r->Ok_0,
        l2.samples_since_sync == l1.samples_since_sync + r->Ok_0 / 2,
        l2.data_limit == l1.data_limit,
    ensures
        r->Ok_0 == pcm_len,
        pcm_len % 2 == 0,
        l2.data_bytes == l0.data_bytes + pcm_len,
        l2.samples_since_sync == l0.samples_since_sync + pcm_len / 2,
        l2.wf(),
{
}

impl StreamLedger {
    /// Samples since the last flush never exceed the samples written.
    pub open spec fn wf(&self) -> bool {
        &&& self.samples_since_sync * PCM16_BYTES_PER_SAMPLE <= self.data_bytes
        &&& self.data_bytes <= self.data_limit
    }

    /// A fresh recording whose journal header took `journal_bytes`.
    pub fn new(journal_bytes: u64) -> (l: StreamLedger)
        ensures
            l.wf(),
            l.journal_bytes == journal_bytes,
            !l.journal_growth_stopped && !l.journal_terminal_written,
            l.data_bytes == 0 && l.samples_since_sync == 0,
            l.sync_interval_samples == DEFAULT_SYNC_INTERVAL_SAMPLES,
            l.data_limit == WAV_DATA_LIMIT,
            l.failure is None,
    {
        StreamLedger {
            journal_bytes,
            journal_growth_stopped: false,
            journal_terminal_written: false,
            data_bytes: 0,
            samples_since_sync: 0,
            sync_interval_samples: DEFAULT_SYNC_INTERVAL_SAMPLES,
            data_limit: WAV_DATA_LIMIT,
            failure: None,
        }
    }

    /// Records `error` unless a failure is already recorded, and returns the
    /// failure that is kept.
    pub fn fail(&mut self, error: String) -> (kept: String)
        ensures
            kept == kept_failure(old(self).failure, error),
            final(self).failure == Some(kept),
            final(self).journal_bytes == old(self).journal_bytes,
            final(self).journal_growth_stopped == old(self).journal_growth_stopped,
            final(self).journal_terminal_written == old(self).journal_terminal_written,
            final(self).data_bytes == old(self).data_bytes,
            final(self).samples_since_sync == old(self).samples_since_sync,
            final(self).sync_interval_samples == old(self).sync_interval_samples,
            final(self).data_limit == old(self).data_limit,
    {
        match &self.failure {
            Some(first) => first.clone(),
            None => {
                let kept = error.clone();
                self.failure = Some(error);
                kept
            },
        }
    }

    /// Whether the appended PCM may be written: refused with the kept
    /// failure after one, and refused (recording the failure) for an odd
    /// length or past the data limit; otherwise the bytes it adds.
    pub fn plan_pcm16_append(&mut self, pcm_len: usize) -> (r: Result<u64, String>)
        ensures
            pcm_append_planned(*old(self), pcm_len, *final(self), r),
    {
        match &self.failure {
            Some(first) => return Err(first.clone()),
            None => {},
        }
        if pcm_len % 2 == 1 {
            return Err(self.fail(String::from_str("PCM16 append has an odd byte length")));
        }
        let added = pcm_len as u64;
        match self.data_bytes.checked_add(added) {
            Some(total) => {
                if total > self.data_limit {
                    return Err(self.fail(String::from_str("Live recording exceeds the WAV 32-bit data-length limit")));
                }
            },
            None => {
                return Err(self.fail(String::from_str("Live recording exceeds the WAV 32-bit data-length limit")));
            },
        }
        Ok(added)
    }

    /// Counts `added` bytes as written, and says whether a flush is due.
    pub fn record_pcm16_written(&mut self, added: u64) -> (flush_due: bool)
        requires
            old(self).wf(),
            added % 2 == 0,
            old(self).data_bytes + added <= old(self).data_limit,
        ensures
            final(self).wf(),
            final(self).data_bytes == old(self).data_bytes + added,
            final(self).samples_since_sync == old(self).samples_since_sync + added / 2,
            flush_due == (final(self).samples_since_sync >= final(self).sync_interval_samples),
            final(self).failure == old(self).failure,
            final(self).journal_bytes == old(self).journal_bytes,
            final(self).sync_interval_samples == old(self).sync_interval_samples,
            final(self).data_limit == old(self).data_limit,
            final(self).journal_growth_stopped == old(self).journal_growth_stopped,
            final(self).journal_terminal_written == old(self).journal_terminal_written,
    {
        self.data_bytes = self.data_bytes + added;
        self.samples_since_sync = self.samples_since_sync + added / PCM16_BYTES_PER_SAMPLE;
        self.samples_since_sync >= self.sync_interval_samples
    }

    /// The audio and journal were flushed: the sample count restarts.
    pub fn record_flushed(&mut self)
        requires
            old(self).wf(),
        ensures
            final(self).wf(),
            *final(self) == (StreamLedger { samples_since_sync: 0, ..*old(self) }),
    {
        self.samples_since_sync = 0;
    }

    /// Whether the next journal record, of `record_bytes` bytes, is written
    /// or stops journal growth; refused with the kept failure after one, and
    /// refused (recording the failure) once growth has stopped.
    pub fn plan_journal_append(&mut self, record_bytes: u64) -> (r: Result<JournalAppend, String>)
        ensures
            journal_append_planned(*old(self), record_bytes, *final(self), r),
    {
        match &self.failure {
            Some(first) => return Err(first.clone()),
            None => {},
        }
        if self.journal_growth_stopped {
            return Err(self.fail(String::from_str("recording journal durability is unavailable")));
        }
        let with_record = self.journal_bytes.saturating_add(record_bytes);
        let with_terminal = with_record.saturating_add(MAX_JOURNAL_TERMINAL_BYTES);
        if record_bytes > MAX_JOURNAL_RECORD_BYTES || with_terminal > MAX_JOURNAL_BYTES {
            Ok(JournalAppend::Stop)
        } else {
            Ok(JournalAppend::Write)
        }
    }

    /// Counts a written and synced journal record; the journal keeps room for
    /// its terminal record.
    pub fn record_journal_written(&mut self, record_bytes: u64)
        requires
            !journal_over_limit(old(self).journal_bytes, record_bytes),
        ensures
            *final(self) == (StreamLedger { journal_bytes: (old(self).journal_bytes + record_bytes) as u64, ..*old(self) }),
            final(self).journal_bytes + MAX_JOURNAL_TERMINAL_BYTES <= MAX_JOURNAL_BYTES,
    {
        self.journal_bytes = self.journal_bytes + record_bytes;
    }

    /// Starts stopping journal growth: the journal is marked degraded, and
    /// the answer says whether the terminal record of `terminal_bytes` bytes
    /// is still to be written and fits under the bound.
    pub fn begin_journal_stop(&self, journal: &mut CaptureJournal, terminal_bytes: u64) -> (write_terminal: bool)
        ensures
            *final(journal) == (CaptureJournal { sink_degraded: true, ..*old(journal) }),
            write_terminal == (!self.journal_terminal_written
                && self.journal_bytes + terminal_bytes <= MAX_JOURNAL_BYTES),
    {
        journal.sink_degraded = true;
        !self.journal_terminal_written && self.journal_bytes.saturating_add(terminal_bytes) <= MAX_JOURNAL_BYTES
    }

    /// Counts the written and synced terminal record.
    pub fn record_terminal_written(&mut self, terminal_bytes: u64)
        requires
            old(self).journal_bytes + terminal_bytes <= MAX_JOURNAL_BYTES,
        ensures
            *final(self) == (StreamLedger {
                journal_bytes: (old(self).journal_bytes + terminal_bytes) as u64,
                journal_terminal_written: true,
                ..*old(self)
            }),
            final(self).journal_bytes <= MAX_JOURNAL_BYTES,
    {
        self.journal_bytes = self.journal_bytes + terminal_bytes;
        self.journal_terminal_written = true;
    }

    /// Ends stopping journal growth: no record is written after this, and
    /// the stop is recorded as the failure unless one came first.
    pub fn finish_journal_stop(&mut self, reason: &str) -> (kept: String)
        ensures
            final(self).journal_growth_stopped,
            old(self).failure matches Some(e) ==> kept == e,
            old(self).failure is None ==> kept@ == journal_stopped_text(reason@),
            final(self).failure == Some(kept),
            final(self).journal_bytes == old(self).journal_bytes,
            final(self).journal_terminal_written == old(self).journal_terminal_written,
            final(self).data_bytes == old(self).data_bytes,
            final(self).samples_since_sync == old(self).samples_since_sync,
            final(self).data_limit == old(self).data_limit,
    {
        self.journal_growth_stopped = true;
        let mut message = String::from_str("recording journal durability stopped: ");
        message.append(reason);
        self.fail(message)
    }

    /// How finalization proceeds: degraded sequence metadata becomes the
    /// failure unless one came first, and any failure makes the recording
    /// partial.
    pub fn begin_finalize(&mut self, sink_degraded: bool) -> (route: FinalizeRoute)
        ensures
            old(self).failure is Some ==> final(self).failure == old(self).failure,
            old(self).failure is None && sink_degraded ==> (final(self).failure matches Some(e) && e@
                == degraded_text()),
            old(self).failure is None && !sink_degraded ==> final(self).failure is None,
            route == (if final(self).failure is Some { FinalizeRoute::Partial } else { FinalizeRoute::Commit }),
            final(self).journal_bytes == old(self).journal_bytes,
            final(self).data_bytes == old(self).data_bytes,
            final(self).samples_since_sync == old(self).samples_since_sync,
            final(self).data_limit == old(self).data_limit,
    {
        if sink_degraded && self.failure.is_none() {
            self.fail(String::from_str("recording sequence metadata is degraded"));
        }
        if self.failure.is_some() {
            FinalizeRoute::Partial
        } else {
            FinalizeRoute::Commit
        }
    }
}

/// The sidecar a complete recording publishes, built from its journal.
pub open spec fn sidecar_from_journal(
    journal: CaptureJournal,
    audio_sha256: String,
    audio_bytes: u64,
    directory_sync_supported: bool,
    metadata: SessionMetadata,
    audio_file: String,
) -> CaptureSidecar {
    CaptureSidecar {
        schema_version: CAPTURE_SCHEMA_VERSION,
        session_id: journal.session_id,
        audio_file,
        audio_sha256,
        audio_bytes,
        tracks: journal.tracks,
        track_configurations: journal.track_configurations,
        clock_mappings: journal.clock_mappings,
        timeline_gaps: journal.timeline_gaps,
        sequence_coverage: journal.sequence_coverage,
        sequence_gaps: journal.sequence_gaps,
        sequence_gap_overflow: journal.sequence_gap_overflow,
        sink_degraded: journal.sink_degraded,
        directory_sync_supported,
        session_metadata: Some(metadata),
    }
}

/// Whether a journal may be published as a complete recording of
/// `audio_bytes` bytes of audio: audio beyond the header has frame metadata,
/// the timeline metadata hold together, and the sequence metadata show no
/// loss or degradation.
pub open spec fn journal_publishable(journal: CaptureJournal, audio_bytes: u64) -> bool {
    &&& !(audio_bytes > WAV_HEADER_BYTES && journal.tracks@.len() == 0)
    &&& timeline_metadata_valid(
        journal.session_id@,
        journal.tracks@,
        journal.track_configurations@,
        journal.clock_mappings@,
        journal.timeline_gaps@,
    )
    &&& complete_sequence_metadata(
        journal.tracks@,
        journal.sequence_coverage@,
        journal.sequence_gaps@,
        journal.sequence_gap_overflow,
        journal.sink_degraded,
    )
}

/// The sidecar of a recording that finalizes complete, from its journal and
/// the published audio's size and hash; refused when the journal may not be
/// published complete.
pub fn complete_sidecar(
    journal: CaptureJournal,
    audio_sha256: String,
    audio_bytes: u64,
    directory_sync_supported: bool,
    metadata: SessionMetadata,
) -> (r: Result<CaptureSidecar, String>)
    ensures
        r is Ok <==> journal_publishable(journal, audio_bytes),
        r matches Ok(s) ==> s == sidecar_from_journal(
            journal,
            audio_sha256,
            audio_bytes,
            directory_sync_supported,
            metadata,
            s.audio_file,
        ) && s.audio_file@ == session_artifact_name(journal.session_id@, artifact_suffix(RecordingArtifact::Wav)),
{
    validate_audio_metadata_presence(audio_bytes, &journal.tracks)?;
    validate_timeline_control_metadata(
        &journal.session_id,
        &journal.tracks,
        &journal.track_configurations,
        &journal.clock_mappings,
        &journal.timeline_gaps,
    )?;
    validate_sequence_metadata(
        &journal.tracks,
        &journal.sequence_coverage,
        &journal.sequence_gaps,
        &journal.sequence_gap_overflow,
        journal.sink_degraded,
    )?;
    let audio_file = artifact_file_name(&journal.session_id, RecordingArtifact::Wav);
    Ok(CaptureSidecar {
        schema_version: CAPTURE_SCHEMA_VERSION,
        session_id: journal.session_id,
        audio_file,
        audio_sha256,
        audio_bytes,
        tracks: journal.tracks,
        track_configurations: journal.track_configurations,
        clock_mappings: journal.clock_mappings,
        timeline_gaps: journal.timeline_gaps,
        sequence_coverage: journal.sequence_coverage,
        sequence_gaps: journal.sequence_gaps,
        sequence_gap_overflow: journal.sequence_gap_overflow,
        sink_degraded: journal.sink_degraded,
        directory_sync_supported,
        session_metadata: Some(metadata),
    })
}

/// What a complete recording's manifest needs to be valid: names of the
/// session's audio and sidecar that are bare file names, hashes of the
/// right shape, at least a WAV header of audio, an RFC 3339 commit time, and
/// metadata of the same session.
pub open spec fn complete_manifest_admissible(
    session_id: Seq<char>,
    audio_sha256: Seq<char>,
    audio_bytes: u64,
    capture_sidecar_sha256: Seq<char>,
    committed_at_utc: Seq<char>,
    metadata: SessionMetadata,
) -> bool {
    &&& is_artifact_basename(session_artifact_name(session_id, artifact_suffix(RecordingArtifact::Wav)))
    &&& is_artifact_basename(session_artifact_name(session_id, artifact_suffix(RecordingArtifact::Sidecar)))
    &&& is_sha256_hex(audio_sha256)
    &&& is_sha256_hex(capture_sidecar_sha256)
    &&& audio_bytes >= WAV_HEADER_BYTES
    &&& rfc3339_parses(committed_at_utc)
    &&& metadata.session_id@ == session_id
}

/// The commit manifest of a complete recording, from the published audio
/// and sidecar and the commit time; refused when it would not be valid.
pub fn complete_manifest(
    session_id: &SessionId,
    audio_sha256: String,
    audio_bytes: u64,
    capture_sidecar_sha256: String,
    committed_at_utc: String,
    metadata: SessionMetadata,
) -> (r: Result<CaptureCommitManifest, String>)
    ensures
        r is Ok <==> complete_manifest_admissible(
            session_id@,
            audio_sha256@,
            audio_bytes,
            capture_sidecar_sha256@,
            committed_at_utc@,
            metadata,
        ),
        r matches Ok(m) ==> manifest_valid(m) && m.schema_version == CAPTURE_SCHEMA_VERSION && m.status
            == CaptureStatus::Complete && m.session_id == *session_id && m.audio_file@ == session_artifact_name(
            session_id@,
            artifact_suffix(RecordingArtifact::Wav),
        ) && m.audio_sha256 == audio_sha256 && m.audio_bytes == audio_bytes && m.capture_sidecar_file@
            == session_artifact_name(session_id@, artifact_suffix(RecordingArtifact::Sidecar))
            && m.capture_sidecar_sha256 == capture_sidecar_sha256 && m.committed_at_utc == committed_at_utc
            && m.session_metadata == Some(metadata),
{
    let manifest = CaptureCommitManifest {
        schema_version: CAPTURE_SCHEMA_VERSION,
        session_id: session_id.duplicate(),
        status: CaptureStatus::Complete,
        audio_file: artifact_file_name(session_id, RecordingArtifact::Wav),
        audio_sha256,
        audio_bytes,
        capture_sidecar_file: artifact_file_name(session_id, RecordingArtifact::Sidecar),
        capture_sidecar_sha256,
        committed_at_utc,
        session_metadata: Some(metadata),
    };
    manifest.validate()?;
    Ok(manifest)
}

/// The error a partial finalization reports: the recorded failure, with the
/// lineage's own failure added when publishing the partial lineage failed.
pub open spec fn partial_error_text(failure: Option<Seq<char>>, lineage_error: Option<Seq<char>>) -> Option<Seq<char>> {
    match (failure, lineage_error) {
        (Some(e), None) => Some(e),
        (Some(e), Some(l)) => Some(e + "; failed to publish partial capture lineage: "@ + l),
        (None, Some(l)) => Some("Failed to publish partial capture lineage: "@ + l),
        (None, None) => None,
    }
}

pub fn partial_finalize_error(failure: Option<String>, lineage_error: Option<String>) -> (r: Option<String>)
    ensures
        match r {
            Some(s) => partial_error_text(
                match failure { Some(e) => Some(e@), None => None },
                match lineage_error { Some(l) => Some(l@), None => None },
            ) == Some(s@),
            None => failure is None && lineage_error is None,
        },
{
    match (failure, lineage_error) {
        (Some(error), None) => Some(error),
        (Some(error), Some(lineage)) => {
            let mut s = error;
            s.append("; failed to publish partial capture lineage: ");
            s.append(lineage.as_str());
            Some(s)
        },
        (None, Some(lineage)) => {
            let mut s = String::from_str("Failed to publish partial capture lineage: ");
            s.append(lineage.as_str());
            Some(s)
        },
        (None, None) => None,
    }
}

/// The refusal of a frame prepared for another session.
pub open spec fn frame_session_text() -> Seq<char> {
    "recording prepared frame session does not match"@
}

/// The refusal of a track's first frame that is not sequence zero.
pub open spec fn sequence_start_text() -> Seq<char> {
    "recording track sequence must start at zero"@
}

/// What is written after an input's metadata entered the journal.
#[derive(Debug, Clone, PartialEq, Eq)]
pub enum InputWrite {
    /// The frame's PCM16 payload goes to the audio file.
    Pcm16(Vec<u8>),
    /// The journal's new state is persisted.
    Journal,
}

/// What taking `input` does: `l0`, `j0` before, `l`, `j` after, `r` the
/// answer. After a failure every input is refused with it; a frame of
/// another session, or a track's first frame past sequence zero, is refused
/// and recorded as the failure; an accepted frame's metadata enters the
/// journal and its payload is to be written; a revision transition or gap
/// the journal accepts enters it and the journal is to be persisted, and one
/// it refuses leaves everything as it was.
pub open spec fn input_taken(
    l0: StreamLedger,
    j0: CaptureJournal,
    input: RecordingInput,
    l: StreamLedger,
    j: CaptureJournal,
    r: Result<InputWrite, String>,
) -> bool {
    match l0.failure {
        Some(e) => r == Err::<InputWrite, String>(e) && l == l0 && j == j0,
        None => match input {
            RecordingInput::PreparedFrame(f) => {
                if f.metadata.session_id@ != j0.session_id@ {
                    &&& r matches Err(e) && e@ == frame_session_text() && l == (StreamLedger { failure: Some(e), ..l0 })
                    &&& j == j0
                } else if f.metadata.sequence != 0 && coverage_index(j0.sequence_coverage@, f.metadata.track_id@) is None {
                    &&& r matches Err(e) && e@ == sequence_start_text() && l == (StreamLedger { failure: Some(e), ..l0 })
                    &&& j == j0
                } else {
                    &&& r == Ok::<InputWrite, String>(InputWrite::Pcm16(f.pcm16))
                    &&& l == l0
                    &&& frame_observed(
                        j0,
                        j,
                        f.metadata.track_id@,
                        f.metadata.sample_rate_hz,
                        f.metadata.channels,
                        f.metadata.sequence,
                        f.metadata.start_ms,
                    )
                }
            },
            RecordingInput::RevisionTransition(t) => {
                &&& l == l0
                &&& (r is Ok <==> transition_accepted(j0, t.configuration, t.clock_mapping))
                &&& (r is Ok ==> r == Ok::<InputWrite, String>(InputWrite::Journal) && transition_recorded(j0, j, t))
                &&& (r matches Err(e) ==> j == j0 && transition_refusal(
                    j0.track_configurations@,
                    j0.clock_mappings@,
                    t.configuration,
                    t.clock_mapping,
                ) == Some(e@))
            },
            RecordingInput::Gap(g) => {
                &&& l == l0
                &&& (r is Ok <==> gap_observation(j0, g) is Ok)
                &&& (r is Ok ==> r == Ok::<InputWrite, String>(InputWrite::Journal) && timeline_gap_recorded(j0, j, g))
                &&& (r matches Err(e) ==> j == j0 && gap_observation(j0, g) == Err::<Seq<AudioGap>, Seq<char>>(e@))
            },
        },
    }
}

/// Takes one ordered input into the recording, as `input_taken` says.
pub fn accept_input(ledger: &mut StreamLedger, journal: &mut CaptureJournal, input: RecordingInput) -> (r: Result<InputWrite, String>)
    ensures
        input_taken(*old(ledger), *old(journal), input, *final(ledger), *final(journal), r),
{
    match &ledger.failure {
        Some(first) => return Err(first.clone()),
        None => {},
    }
    match input {
        RecordingInput::PreparedFrame(frame) => {
            if !frame.metadata.session_id.same_as(&journal.session_id) {
                return Err(ledger.fail(String::from_str("recording prepared frame session does not match")));
            }
            if frame.metadata.sequence != 0 && find_coverage(
                &journal.sequence_coverage,
                frame.metadata.track_id.as_str(),
            ).is_none() {
                return Err(ledger.fail(String::from_str("recording track sequence must start at zero")));
            }
            journal.observe_frame(
                frame.metadata.track_id.as_str(),
                frame.metadata.sample_rate_hz,
                frame.metadata.channels,
                frame.metadata.sequence,
                frame.metadata.start_ms,
            );
            Ok(InputWrite::Pcm16(frame.pcm16))
        },
        RecordingInput::RevisionTransition(transition) => {
            journal.observe_revision_transition(transition)?;
            Ok(InputWrite::Journal)
        },
        RecordingInput::Gap(gap) => {
            journal.observe_gap(gap)?;
            Ok(InputWrite::Journal)
        },
    }
}

/// The durable state describes a journal this one has grown from: no more
/// revision transitions or sequence gaps than the journal holds.
pub open spec fn durable_within(d: DurableJournalState, j: CaptureJournal) -> bool {
    &&& d.revision_transitions <= j.track_configurations@.len()
    &&& d.revision_transitions <= j.clock_mappings@.len()
    &&& d.sequence_gaps <= j.sequence_gaps@.len()
}

proof fn lemma_input_keeps_durable_within(
    d: DurableJournalState,
    l0: StreamLedger,
    j0: CaptureJournal,
    input: RecordingInput,
    l: StreamLedger,
    j: CaptureJournal,
    r: Result<InputWrite, String>,
)
    requires
        durable_within(d, j0),
        input_taken(l0, j0, input, l, j, r),
    ensures
        durable_within(d, j),
        j0.track_configurations@.len() == j0.clock_mappings@.len() ==> j.track_configurations@.len()
            == j.clock_mappings@.len(),
        l0.wf() ==> l.wf(),
{
    if l0.failure is None {
        match input {
            RecordingInput::PreparedFrame(f) => {
                if !(f.metadata.session_id@ != j0.session_id@) && !(f.metadata.sequence != 0 && coverage_index(
                    j0.sequence_coverage@,
                    f.metadata.track_id@,
                ) is None) {
                    assert(j.sequence_gaps@.len() >= j0.sequence_gaps@.len());
                }
            },
            _ => {},
        }
    }
}

/// What a streaming recording decides by, apart from its open files: its
/// metadata, its journal and what of it is durable (and, for the proofs,
/// the journal that was current when it became durable), its ledger of
/// bytes and failure, and the result once it finalized.
#[derive(Clone)]
pub struct StreamingRecording {
    pub session_metadata: SessionMetadata,
    pub journal: CaptureJournal,
    pub journal_durable: DurableJournalState,
    pub durable_journal: Ghost<CaptureJournal>,
    pub ledger: StreamLedger,
    pub finalized: Option<RecordingFinalizeResult>,
}

/// The record `d` brings the journal file from `durable_journal` to
/// `journal`: it applies, and whatever it replays to holds exactly
/// `journal`.
pub open spec fn delta_restores(durable_journal: CaptureJournal, d: JournalDelta, journal: CaptureJournal) -> bool {
    &&& delta_applies(durable_journal, d)
    &&& forall|replayed: CaptureJournal| #[trigger] delta_applied(durable_journal, d, replayed) ==> same_journal(replayed, journal)
}

/// Which way finalization goes.
#[derive(Debug, Clone, Copy, PartialEq, Eq, Structural)]
pub enum FinalizeStep {
    /// Already finalized: its result stands.
    Finalized,
    /// Publish the complete recording.
    Commit,
    /// Publish the partial lineage with the recorded failure.
    Partial,
}

/// What `StreamingRecording::finalize` does: a finalized recording keeps
/// its result and changes nothing; otherwise degraded sequence metadata
/// becomes the failure unless one came first, any failure makes the
/// recording partial, and the journal stays as it was.
pub open spec fn finalize_outcome(before: StreamingRecording, after: StreamingRecording, step: FinalizeStep) -> bool {
    if before.finalized is Some {
        step == FinalizeStep::Finalized && after == before
    } else {
        &&& before.ledger.failure is Some ==> after.ledger.failure == before.ledger.failure
        &&& before.ledger.failure is None && before.journal.sink_degraded ==> (after.ledger.failure matches Some(e)
            && e@ == degraded_text())
        &&& before.ledger.failure is None && !before.journal.sink_degraded ==> after.ledger.failure is None
        &&& step == (if after.ledger.failure is Some {
            FinalizeStep::Partial
        } else {
            FinalizeStep::Commit
        })
        &&& after.journal == before.journal
        &&& after.finalized is None
    }
}

/// Finalizing is idempotent: once a result is recorded, every later
/// finalization answers `Finalized` and leaves the recording, result
/// included, exactly as it was; before that, finalizing again takes the
/// same route with the same failure.
pub proof fn law_finalize_is_idempotent(
    a: StreamingRecording,
    b: StreamingRecording,
    c: StreamingRecording,
    first: FinalizeStep,
    second: FinalizeStep,
)
    requires
        finalize_outcome(a, b, first),
        finalize_outcome(b, c, second),
    ensures
        a.finalized is Some ==> first == FinalizeStep::Finalized && second == FinalizeStep::Finalized && c == a
            && c.finalized == a.finalized,
        a.finalized is None ==> second == first && c.ledger.failure == b.ledger.failure && c.journal == a.journal,
{
}

impl StreamingRecording {
    /// The ledger is consistent and the durable state is one the journal
    /// grew from.
    pub open spec fn wf(&self) -> bool {
        &&& self.ledger.wf()
        &&& self.journal.track_configurations@.len() == self.journal.clock_mappings@.len()
        &&& durable_within(self.journal_durable, self.journal)
        &&& journal_consistent(self.journal)
        &&& durable_of(self.journal_durable, self.durable_journal@)
        &&& journal_grew(self.durable_journal@, self.journal)
    }

    /// A recording whose placeholder audio header and journal header record
    /// (of `journal_header_bytes` bytes) were just written: an empty journal
    /// of the metadata's session, all of it durable.
    pub fn create(session_metadata: SessionMetadata, journal_header_bytes: u64) -> (r: StreamingRecording)
        ensures
            r.wf(),
            r.session_metadata == session_metadata,
            r.journal.schema_version == CAPTURE_SCHEMA_VERSION,
            r.journal.session_id == session_metadata.session_id,
            r.journal.tracks@.len() == 0 && r.journal.track_configurations@.len() == 0
                && r.journal.clock_mappings@.len() == 0 && r.journal.timeline_gaps@.len() == 0
                && r.journal.sequence_coverage@.len() == 0 && r.journal.sequence_gaps@.len() == 0,
            r.journal.sequence_gap_overflow is None && !r.journal.sink_degraded,
            durable_of(r.journal_durable, r.journal),
            r.ledger.journal_bytes == journal_header_bytes,
            !r.ledger.journal_growth_stopped && !r.ledger.journal_terminal_written,
            r.ledger.data_bytes == 0 && r.ledger.samples_since_sync == 0,
            r.ledger.sync_interval_samples == DEFAULT_SYNC_INTERVAL_SAMPLES,
            r.ledger.data_limit == WAV_DATA_LIMIT,
            r.ledger.failure is None,
            r.finalized is None,
    {
        let journal = CaptureJournal::new(session_metadata.session_id.duplicate());
        let journal_durable = DurableJournalState::from_journal(&journal);
        proof {
            law_journal_growth_is_reflexive(journal);
        }
        StreamingRecording {
            session_metadata,
            journal,
            journal_durable,
            durable_journal: Ghost(journal),
            ledger: StreamLedger::new(journal_header_bytes),
            finalized: None,
        }
    }

    /// Takes one ordered input, as `input_taken` says.
    pub fn append_input(&mut self, input: RecordingInput) -> (r: Result<InputWrite, String>)
        requires
            old(self).wf(),
        ensures
            final(self).wf(),
            input_taken(old(self).ledger, old(self).journal, input, final(self).ledger, final(self).journal, r),
            final(self).session_metadata == old(self).session_metadata,
            final(self).journal_durable == old(self).journal_durable,
            final(self).durable_journal == old(self).durable_journal,
            final(self).finalized == old(self).finalized,
    {
        let ghost l0 = self.ledger;
        let ghost j0 = self.journal;
        let r = accept_input(&mut self.ledger, &mut self.journal, input);
        proof {
            lemma_input_keeps_durable_within(self.journal_durable, l0, j0, input, self.ledger, self.journal, r);
            law_every_input_keeps_growth(l0, j0, input, self.ledger, self.journal, r);
            law_journal_growth_is_transitive(self.durable_journal@, j0, self.journal);
        }
        r
    }

    /// The record that brings the journal file up to date.
    pub fn pending_journal_delta(&self) -> (d: JournalDelta)
        requires
            self.wf(),
        ensures
            delta_of(self.journal_durable, self.journal, d),
            delta_restores(self.durable_journal@, d, self.journal),
    {
        let d = self.journal_durable.delta(&self.journal);
        proof {
            assert forall|replayed: CaptureJournal| #[trigger] delta_applied(self.durable_journal@, d, replayed) implies same_journal(
                replayed,
                self.journal,
            ) by {
                law_delta_replays_to_the_journal(self.durable_journal@, self.journal, self.journal_durable, d, replayed);
            }
            law_delta_replays_to_the_journal(self.durable_journal@, self.journal, self.journal_durable, d, self.journal);
        }
        d
    }

    /// Starts stopping journal growth, as `StreamLedger::begin_journal_stop`
    /// does on this recording's journal.
    pub fn begin_journal_stop(&mut self, terminal_bytes: u64) -> (write_terminal: bool)
        requires
            old(self).wf(),
        ensures
            final(self).wf(),
            final(self).journal == (CaptureJournal { sink_degraded: true, ..old(self).journal }),
            write_terminal == (!old(self).ledger.journal_terminal_written
                && old(self).ledger.journal_bytes + terminal_bytes <= MAX_JOURNAL_BYTES),
            final(self).ledger == old(self).ledger,
            final(self).journal_durable == old(self).journal_durable,
            final(self).durable_journal == old(self).durable_journal,
            final(self).session_metadata == old(self).session_metadata,
            final(self).finalized == old(self).finalized,
    {
        let ghost j0 = self.journal;
        let write_terminal = self.ledger.begin_journal_stop(&mut self.journal, terminal_bytes);
        proof {
            law_degradation_keeps_growth(j0, self.journal);
            law_journal_growth_is_transitive(self.durable_journal@, j0, self.journal);
        }
        write_terminal
    }

    /// The pending record, of `record_bytes` bytes, was written and synced:
    /// the whole journal is durable now.
    pub fn journal_persisted(&mut self, record_bytes: u64)
        requires
            old(self).wf(),
            !journal_over_limit(old(self).ledger.journal_bytes, record_bytes),
        ensures
            final(self).wf(),
            durable_of(final(self).journal_durable, final(self).journal),
            final(self).durable_journal@ == final(self).journal,
            final(self).journal == old(self).journal,
            final(self).ledger == (StreamLedger {
                journal_bytes: (old(self).ledger.journal_bytes + record_bytes) as u64,
                ..old(self).ledger
            }),
            final(self).session_metadata == old(self).session_metadata,
            final(self).finalized == old(self).finalized,
    {
        self.ledger.record_journal_written(record_bytes);
        self.journal_durable = DurableJournalState::from_journal(&self.journal);
        self.durable_journal = Ghost(self.journal);
        proof {
            law_journal_growth_is_reflexive(self.journal);
        }
    }

    /// Records `reason` as the failure unless one came first.
    pub fn abort(&mut self, reason: String)
        requires
            old(self).wf(),
        ensures
            final(self).wf(),
            final(self).ledger == (StreamLedger {
                failure: Some(kept_failure(old(self).ledger.failure, reason)),
                ..old(self).ledger
            }),
            final(self).journal == old(self).journal,
            final(self).journal_durable == old(self).journal_durable,
            final(self).durable_journal == old(self).durable_journal,
            final(self).session_metadata == old(self).session_metadata,
            final(self).finalized == old(self).finalized,
    {
        self.ledger.fail(reason);
    }

    /// Which way finalization goes: a finalized recording keeps its result;
    /// otherwise degraded sequence metadata becomes the failure unless one
    /// came first, and any failure makes the recording partial.
    pub fn finalize(&mut self) -> (step: FinalizeStep)
        requires
            old(self).wf(),
        ensures
            final(self).wf(),
            finalize_outcome(*old(self), *final(self), step),
    {
        if self.finalized.is_some() {
            return FinalizeStep::Finalized;
        }
        match self.ledger.begin_finalize(self.journal.sink_degraded) {
            FinalizeRoute::Commit => FinalizeStep::Commit,
            FinalizeRoute::Partial => FinalizeStep::Partial,
        }
    }

    /// Finalization published the complete recording.
    pub fn finalized_complete(&mut self, manifest: CaptureCommitManifest, directory: String)
        requires
            old(self).wf(),
        ensures
            final(self).wf(),
            final(self).finalized matches Some(f) && f.session_id == manifest.session_id && f.status
                == CaptureStatus::Complete && f.committed == Some(CommittedCapture { manifest, directory })
                && f.partial_lineage is None && f.error is None,
            final(self).journal == old(self).journal,
            final(self).ledger == old(self).ledger,
    {
        let session_id = manifest.session_id.duplicate();
        self.finalized = Some(RecordingFinalizeResult {
            session_id,
            status: CaptureStatus::Complete,
            committed: Some(CommittedCapture { manifest, directory }),
            partial_lineage: None,
            error: None,
        });
    }

    /// Finalization published the partial lineage, or failed to: the result
    /// is partial, with the recorded failure and the lineage's own failure.
    pub fn finalized_partial(&mut self, lineage: Result<PartialCaptureLineage, String>)
        requires
            old(self).wf(),
        ensures
            final(self).wf(),
            final(self).finalized matches Some(f) && f.session_id == old(self).journal.session_id && f.status
                == CaptureStatus::Partial && f.committed is None && match lineage {
                Ok(l) => f.partial_lineage == Some(l),
                Err(_) => f.partial_lineage is None,
            } && match f.error {
                Some(e) => partial_error_text(
                    match old(self).ledger.failure {
                        Some(x) => Some(x@),
                        None => None,
                    },
                    match lineage {
                        Ok(_) => None,
                        Err(x) => Some(x@),
                    },
                ) == Some(e@),
                None => old(self).ledger.failure is None && lineage is Ok,
            },
            final(self).journal == old(self).journal,
            final(self).ledger == old(self).ledger,
    {
        let failure = match &self.ledger.failure {
            Some(e) => Some(e.clone()),
            None => None,
        };
        let (partial_lineage, lineage_error) = match lineage {
            Ok(l) => (Some(l), None),
            Err(e) => (None, Some(e)),
        };
        let error = partial_finalize_error(failure, lineage_error);
        self.finalized = Some(RecordingFinalizeResult {
            session_id: self.journal.session_id.duplicate(),
            status: CaptureStatus::Partial,
            committed: None,
            partial_lineage,
            error,
        });
    }
}

/// What the recording worker does to the capture sink after an input: degrade
/// it with a failure, and degrade it for a sequence discontinuity.
#[derive(Debug, Clone, PartialEq, Eq)]
pub struct SinkActions {
    pub degrade_with: Option<String>,
    pub discontinuity: bool,
}

/// The reason the capture sink is degraded with when sequences were lost.
pub open spec fn discontinuity_text() -> Seq<char> {
    "recording sequence discontinuity"@
}

/// The reason the capture sink is degraded with when sequences were lost.
pub fn discontinuity_reason() -> (s: String)
    ensures
        s@ == discontinuity_text(),
{
    String::from_str("recording sequence discontinuity")
}

impl StreamingRecording {
    /// The worker's decision once it handed an input to the recording
    /// (`appended` is how that went; the worker hands none after a failure):
    /// a failure degrades the capture sink with its message and becomes the
    /// recording's failure unless one came first; a journal whose sequence
    /// metadata is degraded degrades the sink as a discontinuity.
    pub fn worker_input_outcome(&mut self, appended: Result<(), String>) -> (actions: SinkActions)
        requires
            old(self).wf(),
        ensures
            final(self).wf(),
            final(self).journal == old(self).journal,
            final(self).journal_durable == old(self).journal_durable,
            final(self).durable_journal == old(self).durable_journal,
            final(self).session_metadata == old(self).session_metadata,
            final(self).finalized == old(self).finalized,
            match appended {
                Ok(_) => actions.degrade_with is None && final(self).ledger == old(self).ledger,
                Err(e) => actions.degrade_with == Some(e) && final(self).ledger == (StreamLedger {
                    failure: Some(kept_failure(old(self).ledger.failure, e)),
                    ..old(self).ledger
                }),
            },
            actions.discontinuity == old(self).journal.sink_degraded,
    {
        let degrade_with = match appended {
            Ok(_) => None,
            Err(error) => {
                let reported = error.clone();
                self.abort(error);
                Some(reported)
            },
        };
        SinkActions { degrade_with, discontinuity: self.journal.sink_degraded }
    }
}

/// The result of a recording whose writer could not even be created.
pub fn creation_failure(session_id: SessionId, error: String) -> (r: RecordingFinalizeResult)
    ensures
        r == (RecordingFinalizeResult {
            session_id,
            status: CaptureStatus::Partial,
            committed: None,
            partial_lineage: None,
            error: Some(error),
        }),
{
    RecordingFinalizeResult { session_id, status: CaptureStatus::Partial, committed: None, partial_lineage: None, error: Some(error) }
}

} // verus!
