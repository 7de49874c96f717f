//! The published shapes of a recording — commit manifest, capture sidecar,
//! partial-recovery commit — their validation, and the scan of a recordings
//! folder built from them.

use vstd::prelude::*;
use time::OffsetDateTime;
use time::format_description::well_known::Rfc3339;
use crate::artifacts::{
    artifact_file_name, artifact_suffix, is_artifact_basename, session_artifact_name,
    validate_artifact_name, RecordingArtifact,
};
use crate::clock::ClockMappingRevision;
use crate::frame::{AudioGap, TrackConfigurationRevision};
use crate::journal::{
    JournalTrack, SequenceCoverage, SequenceGap, SequenceGapOverflow, CAPTURE_SCHEMA_VERSION,
    MAX_SEQUENCE_GAP_DETAILS, last_index_before, lemma_last_index_before,
};
use crate::session::{string_option_view, SessionId, SessionMetadata};
use crate::sidecar::{timeline_metadata_valid, validate_timeline_control_metadata};
use crate::text::{is_sha256_hex, same_text, sha256_hex_text, text_lt, text_less, lemma_text_lt_transitive, lemma_text_lt_total, lemma_text_lt_irreflexive, chars_of, string_from_chars};
use crate::wav::WAV_HEADER_BYTES;

verus! {

/// Whether a capture was published complete or only as a partial recovery.
#[derive(Debug, Clone, Copy, PartialEq, Eq, Structural)]
pub enum CaptureStatus {
    Complete,
    Partial,
}

/// Whether `text` is an RFC 3339 timestamp, as the `time` crate parses it.
pub uninterp spec fn rfc3339_parses(text: Seq<char>) -> bool;

/// `OffsetDateTime::parse(text, &Rfc3339).is_ok()` from the `time` crate: the
/// contract claims only that the answer depends on the text alone.
#[verifier::external_body]
fn parses_as_rfc3339(text: &str) -> (r: bool)
    ensures
        r == rfc3339_parses(text@),
{
    OffsetDateTime::parse(text, &Rfc3339).is_ok()
}

/// A recording hash must be a SHA-256 hex digest.
pub fn validate_sha256(value: &str) -> (r: Result<(), String>)
    ensures
        r is Ok <==> is_sha256_hex(value@),
        r matches Err(e) ==> e@ == "recording artifact hash is invalid"@,
{
    if sha256_hex_text(value) {
        Ok(())
    } else {
        Err(String::from_str("recording artifact hash is invalid"))
    }
}

/// The text of a metadata's string fields, in order, for comparisons.
pub open spec fn text_seq(values: Seq<String>) -> Seq<Seq<char>> {
    values.map_values(|s: String| s@)
}

/// Two session metadata records agree field by field (strings by text).
pub open spec fn metadata_equal(a: SessionMetadata, b: SessionMetadata) -> bool {
    &&& a.session_id@ == b.session_id@
    &&& a.mode == b.mode
    &&& a.origin == b.origin
    &&& a.trigger_mode == b.trigger_mode
    &&& a.started_at_utc@ == b.started_at_utc@
    &&& a.utc_offset_minutes_at_start == b.utc_offset_minutes_at_start
    &&& string_option_view(a.locale_hint_bcp47) == string_option_view(b.locale_hint_bcp47)
    &&& string_option_view(a.country_code_hint) == string_option_view(b.country_code_hint)
    &&& text_seq(a.preferred_languages_bcp47@) == text_seq(b.preferred_languages_bcp47@)
    &&& a.app_version@ == b.app_version@
    &&& a.platform@ == b.platform@
    &&& a.privacy_policy_version@ == b.privacy_policy_version@
    &&& string_option_view(a.retention_expires_at_utc) == string_option_view(b.retention_expires_at_utc)
}

fn same_optional_text(a: &Option<String>, b: &Option<String>) -> (r: bool)
    ensures
        r == (string_option_view(*a) == string_option_view(*b)),
{
    match (a, b) {
        (Some(x), Some(y)) => same_text(x.as_str(), y.as_str()),
        (None, None) => true,
        _ => false,
    }
}

fn same_texts(a: &Vec<String>, b: &Vec<String>) -> (r: bool)
    ensures
        r == (text_seq(a@) == text_seq(b@)),
{
    if a.len() != b.len() {
        proof {
            assert(text_seq(a@).len() != text_seq(b@).len());
        }
        return false;
    }
    let mut i: usize = 0;
    while i < a.len()
        invariant
            a.len() == b.len(),
            i <= a.len(),
            forall|k: int| 0 <= k < i ==> (#[trigger] a@[k])@ == b@[k]@,
        decreases a.len() - i,
    {
        if !same_text(a[i].as_str(), b[i].as_str()) {
            proof {
                assert(text_seq(a@)[i as int] != text_seq(b@)[i as int]);
            }
            return false;
        }
        i = i + 1;
    }
    proof {
        assert(text_seq(a@) =~= text_seq(b@));
    }
    true
}

/// Field-by-field comparison of session metadata.
pub fn same_metadata(a: &SessionMetadata, b: &SessionMetadata) -> (r: bool)
    ensures
        r == metadata_equal(*a, *b),
{
    a.session_id.same_as(&b.session_id)
        && a.mode == b.mode
        && a.origin == b.origin
        && a.trigger_mode == b.trigger_mode
        && same_text(a.started_at_utc.as_str(), b.started_at_utc.as_str())
        && a.utc_offset_minutes_at_start == b.utc_offset_minutes_at_start
        && same_optional_text(&a.locale_hint_bcp47, &b.locale_hint_bcp47)
        && same_optional_text(&a.country_code_hint, &b.country_code_hint)
        && same_texts(&a.preferred_languages_bcp47, &b.preferred_languages_bcp47)
        && same_text(a.app_version.as_str(), b.app_version.as_str())
        && same_text(a.platform.as_str(), b.platform.as_str())
        && same_text(a.privacy_policy_version.as_str(), b.privacy_policy_version.as_str())
        && same_optional_text(&a.retention_expires_at_utc, &b.retention_expires_at_utc)
}

fn same_optional_metadata(a: &Option<SessionMetadata>, b: &Option<SessionMetadata>) -> (r: bool)
    ensures
        r == match (*a, *b) {
            (Some(x), Some(y)) => metadata_equal(x, y),
            (None, None) => true,
            _ => false,
        },
{
    match (a, b) {
        (Some(x), Some(y)) => same_metadata(x, y),
        (None, None) => true,
        _ => false,
    }
}

/// Session metadata belongs to the recording it is stored with.
pub fn validate_capture_metadata(metadata: &SessionMetadata, session_id: &SessionId) -> (r: Result<(), String>)
    ensures
        r is Ok <==> metadata.session_id@ == session_id@,
        r matches Err(e) ==> e@ == "capture session metadata does not match the recording session"@,
{
    if !metadata.session_id.same_as(session_id) {
        return Err(String::from_str("capture session metadata does not match the recording session"));
    }
    Ok(())
}

/// Audio beyond the header needs frame metadata.
pub fn validate_audio_metadata_presence(audio_bytes: u64, tracks: &Vec<JournalTrack>) -> (r: Result<(), String>)
    ensures
        r is Ok <==> !(audio_bytes > WAV_HEADER_BYTES && tracks@.len() == 0),
        r matches Err(e) ==> e@ == "nonempty recording audio has no frame metadata"@,
{
    if audio_bytes > WAV_HEADER_BYTES && tracks.len() == 0 {
        return Err(String::from_str("nonempty recording audio has no frame metadata"));
    }
    Ok(())
}

/// Every track's sequences start at zero.
pub open spec fn coverage_starts_at_zero(coverage: Seq<SequenceCoverage>) -> bool {
    forall|i: int| 0 <= i < coverage.len() ==> (#[trigger] coverage[i]).first_sequence == 0
}

pub fn validate_initial_sequence_coverage(sequence_coverage: &Vec<SequenceCoverage>) -> (r: Result<(), String>)
    ensures
        r is Ok <==> coverage_starts_at_zero(sequence_coverage@),
        r matches Err(e) ==> e@ == "recording track sequence must start at zero"@,
{
    let mut i: usize = 0;
    while i < sequence_coverage.len()
        invariant
            i <= sequence_coverage.len(),
            forall|k: int| 0 <= k < i ==> (#[trigger] sequence_coverage@[k]).first_sequence == 0,
        decreases sequence_coverage.len() - i,
    {
        if sequence_coverage[i].first_sequence != 0 {
            return Err(String::from_str("recording track sequence must start at zero"));
        }
        i = i + 1;
    }
    Ok(())
}

/// Whether a recorded track has the id `t`.
pub open spec fn has_track(tracks: Seq<JournalTrack>, t: Seq<char>) -> bool {
    exists|k: int| 0 <= k < tracks.len() && (#[trigger] tracks[k]).track_id@ == t
}

/// Whether a coverage entry names track `t`.
pub open spec fn has_coverage(coverage: Seq<SequenceCoverage>, t: Seq<char>) -> bool {
    exists|k: int| 0 <= k < coverage.len() && (#[trigger] coverage[k]).track_id@ == t
}

/// The sequence metadata of a complete recording: coverage from zero of
/// exactly the recorded tracks, one entry each, and no degradation at all.
pub open spec fn complete_sequence_metadata(
    tracks: Seq<JournalTrack>,
    coverage: Seq<SequenceCoverage>,
    gaps: Seq<SequenceGap>,
    overflow: Option<SequenceGapOverflow>,
    sink_degraded: bool,
) -> bool {
    &&& coverage_starts_at_zero(coverage)
    &&& forall|i: int| 0 <= i < coverage.len()
        ==> has_track(tracks, (#[trigger] coverage[i]).track_id@) && coverage[i].first_sequence <= coverage[i].last_sequence
    &&& forall|i: int, j: int| 0 <= i < j < coverage.len() ==> (#[trigger] coverage[i]).track_id@ != (#[trigger] coverage[j]).track_id@
    &&& forall|i: int| 0 <= i < tracks.len() ==> has_coverage(coverage, (#[trigger] tracks[i]).track_id@)
    &&& gaps.len() == 0
    &&& overflow is None
    &&& !sink_degraded
}

fn find_track_text(tracks: &Vec<JournalTrack>, t: &str) -> (r: bool)
    ensures
        r == has_track(tracks@, t@),
{
    let mut i: usize = 0;
    while i < tracks.len()
        invariant
            i <= tracks.len(),
            forall|k: int| 0 <= k < i ==> (#[trigger] tracks@[k]).track_id@ != t@,
        decreases tracks.len() - i,
    {
        if same_text(tracks[i].track_id.as_str(), t) {
            return true;
        }
        i = i + 1;
    }
    false
}

fn find_coverage_text(coverage: &Vec<SequenceCoverage>, t: &str) -> (r: Option<usize>)
    ensures
        r is Some <==> has_coverage(coverage@, t@),
        r matches Some(k) ==> k < coverage.len() && coverage@[k as int].track_id@ == t@,
{
    let mut i: usize = 0;
    while i < coverage.len()
        invariant
            i <= coverage.len(),
            forall|k: int| 0 <= k < i ==> (#[trigger] coverage@[k]).track_id@ != t@,
        decreases coverage.len() - i,
    {
        if same_text(coverage[i].track_id.as_str(), t) {
            return Some(i);
        }
        i = i + 1;
    }
    None
}

/// Coverage entries of recorded tracks, each with an ordered range, one per
/// track.
pub open spec fn coverage_entries_valid(tracks: Seq<JournalTrack>, coverage: Seq<SequenceCoverage>) -> bool {
    &&& forall|i: int| 0 <= i < coverage.len()
        ==> has_track(tracks, (#[trigger] coverage[i]).track_id@) && coverage[i].first_sequence <= coverage[i].last_sequence
    &&& forall|i: int, j: int| 0 <= i < j < coverage.len() ==> (#[trigger] coverage[i]).track_id@ != (#[trigger] coverage[j]).track_id@
}

/// Every recorded track has coverage.
pub open spec fn tracks_covered(tracks: Seq<JournalTrack>, coverage: Seq<SequenceCoverage>) -> bool {
    forall|i: int| 0 <= i < tracks.len() ==> has_coverage(coverage, (#[trigger] tracks[i]).track_id@)
}

/// The coverage entry of track `t`.
pub open spec fn coverage_index(coverage: Seq<SequenceCoverage>, t: Seq<char>) -> int {
    choose|k: int| 0 <= k < coverage.len() && (#[trigger] coverage[k]).track_id@ == t
}

/// The previous sequence gap of the same track as gap `i`.
pub open spec fn previous_sequence_gap(gaps: Seq<SequenceGap>, i: int) -> Option<int> {
    last_index_before(i, |j: int| gaps[j].track_id@ == gaps[i].track_id@)
}

/// Why sequence gap `i` is refused, if it is: its track has no coverage;
/// it is empty or runs past its coverage; or it starts at or before the
/// coverage's first sequence or before the previous gap of its track ends.
pub open spec fn sequence_gap_refusal(coverage: Seq<SequenceCoverage>, gaps: Seq<SequenceGap>, i: int) -> Option<Seq<char>> {
    let g = gaps[i];
    if !has_coverage(coverage, g.track_id@) {
        Some("recording sequence gap has no coverage"@)
    } else {
        let c = coverage[coverage_index(coverage, g.track_id@)];
        if g.dropped_frames == 0 || g.first_sequence + g.dropped_frames > c.last_sequence {
            Some("recording sequence gap is invalid"@)
        } else if g.first_sequence <= c.first_sequence || (previous_sequence_gap(gaps, i) matches Some(p)
            && gaps[p].first_sequence + gaps[p].dropped_frames > g.first_sequence) {
            Some("recording sequence gaps are not ordered"@)
        } else {
            None
        }
    }
}

/// An overflow record that is not what a full detail list leaves.
pub open spec fn overflow_invalid(gaps: Seq<SequenceGap>, overflow: Option<SequenceGapOverflow>) -> bool {
    overflow matches Some(o) && (o.detail_capacity != MAX_SEQUENCE_GAP_DETAILS || gaps.len()
        != MAX_SEQUENCE_GAP_DETAILS || o.omitted_gap_count == 0 || o.omitted_dropped_frames == 0)
}

/// `e` is the refusal of sequence metadata that are not complete: the
/// checks run in turn (coverage from zero, each coverage entry, coverage of
/// every track, each gap, the overflow record, degradation), and the first
/// that fails, at the first gap where it fails, gives the text.
pub open spec fn sequence_refusal(
    tracks: Seq<JournalTrack>,
    coverage: Seq<SequenceCoverage>,
    gaps: Seq<SequenceGap>,
    overflow: Option<SequenceGapOverflow>,
    sink_degraded: bool,
    e: Seq<char>,
) -> bool {
    if !coverage_starts_at_zero(coverage) {
        e == "recording track sequence must start at zero"@
    } else if !coverage_entries_valid(tracks, coverage) {
        e == "recording sequence coverage is invalid"@
    } else if !tracks_covered(tracks, coverage) {
        e == "recording track has no sequence coverage"@
    } else if exists|i: int| 0 <= i < gaps.len() && #[trigger] sequence_gap_refusal(coverage, gaps, i) is Some {
        exists|i: int| {
            &&& 0 <= i < gaps.len()
            &&& forall|k: int| 0 <= k < i ==> #[trigger] sequence_gap_refusal(coverage, gaps, k) is None
            &&& #[trigger] sequence_gap_refusal(coverage, gaps, i) == Some(e)
        }
    } else if overflow_invalid(gaps, overflow) {
        e == "recording sequence-gap overflow is invalid"@
    } else if (gaps.len() != 0 || overflow is Some) && !sink_degraded {
        e == "recording sequence degradation is inconsistent"@
    } else {
        e == "degraded recording metadata cannot be complete"@
    }
}

/// With one entry per track, the entry found for a track is its entry.
proof fn lemma_coverage_index_unique(coverage: Seq<SequenceCoverage>, t: Seq<char>, k: int)
    requires
        forall|i: int, j: int| 0 <= i < j < coverage.len() ==> (#[trigger] coverage[i]).track_id@ != (#[trigger] coverage[j]).track_id@,
        0 <= k < coverage.len(),
        coverage[k].track_id@ == t,
    ensures
        coverage_index(coverage, t) == k,
{
    assert(0 <= k < coverage.len() && coverage[k].track_id@ == t);
    let c = coverage_index(coverage, t);
    assert(0 <= c < coverage.len() && coverage[c].track_id@ == t);
    if c < k {
        assert(coverage[c].track_id@ != coverage[k].track_id@);
    } else if k < c {
        assert(coverage[k].track_id@ != coverage[c].track_id@);
    }
}

fn find_previous_sequence_gap(gaps: &Vec<SequenceGap>, i: usize) -> (r: Option<usize>)
    requires
        i < gaps.len(),
    ensures
        match r {
            Some(p) => previous_sequence_gap(gaps@, i as int) == Some(p as int),
            None => previous_sequence_gap(gaps@, i as int) is None,
        },
        r matches Some(p) ==> p < i,
{
    let ghost pred = |j: int| gaps@[j].track_id@ == gaps@[i as int].track_id@;
    proof {
        lemma_last_index_before(i as int, pred);
    }
    let mut k: usize = i;
    while k > 0
        invariant
            k <= i < gaps.len(),
            pred == (|j: int| gaps@[j].track_id@ == gaps@[i as int].track_id@),
            last_index_before(i as int, pred) == last_index_before(k as int, pred),
        decreases k,
    {
        if same_text(gaps[k - 1].track_id.as_str(), gaps[i].track_id.as_str()) {
            return Some(k - 1);
        }
        k = k - 1;
    }
    None
}

fn check_sequence_gap(coverage: &Vec<SequenceCoverage>, gaps: &Vec<SequenceGap>, i: usize) -> (r: Result<(), String>)
    requires
        i < gaps.len(),
        forall|a: int, b: int| 0 <= a < b < coverage.len() ==> (#[trigger] coverage@[a]).track_id@ != (#[trigger] coverage@[b]).track_id@,
    ensures
        r is Ok <==> sequence_gap_refusal(coverage@, gaps@, i as int) is None,
        r matches Err(e) ==> sequence_gap_refusal(coverage@, gaps@, i as int) == Some(e@),
{
    let gap = &gaps[i];
    let k = match find_coverage_text(coverage, gap.track_id.as_str()) {
        Some(k) => k,
        None => return Err(String::from_str("recording sequence gap has no coverage")),
    };
    proof {
        lemma_coverage_index_unique(coverage@, gap.track_id@, k as int);
    }
    let c = &coverage[k];
    let gap_end = match gap.first_sequence.checked_add(gap.dropped_frames) {
        Some(end) => end,
        None => return Err(String::from_str("recording sequence gap is invalid")),
    };
    if gap.dropped_frames == 0 || gap_end > c.last_sequence {
        return Err(String::from_str("recording sequence gap is invalid"));
    }
    let ordered = gap.first_sequence > c.first_sequence && match find_previous_sequence_gap(gaps, i) {
        Some(p) => match gaps[p].first_sequence.checked_add(gaps[p].dropped_frames) {
            Some(previous_end) => previous_end <= gap.first_sequence,
            None => false,
        },
        None => true,
    };
    if !ordered {
        return Err(String::from_str("recording sequence gaps are not ordered"));
    }
    Ok(())
}

/// Sequence gaps and their overflow record must be well-formed, and any of
/// them, or sink degradation, keeps a recording from being complete.
pub fn validate_sequence_metadata(
    tracks: &Vec<JournalTrack>,
    sequence_coverage: &Vec<SequenceCoverage>,
    sequence_gaps: &Vec<SequenceGap>,
    sequence_gap_overflow: &Option<SequenceGapOverflow>,
    sink_degraded: bool,
) -> (r: Result<(), String>)
    ensures
        r is Ok <==> complete_sequence_metadata(
            tracks@,
            sequence_coverage@,
            sequence_gaps@,
            *sequence_gap_overflow,
            sink_degraded,
        ),
        r matches Err(e) ==> sequence_refusal(
            tracks@,
            sequence_coverage@,
            sequence_gaps@,
            *sequence_gap_overflow,
            sink_degraded,
            e@,
        ),
{
    validate_initial_sequence_coverage(sequence_coverage)?;
    let mut i: usize = 0;
    while i < sequence_coverage.len()
        invariant
            coverage_starts_at_zero(sequence_coverage@),
            i <= sequence_coverage.len(),
            forall|a: int| 0 <= a < i
                ==> has_track(tracks@, (#[trigger] sequence_coverage@[a]).track_id@)
                    && sequence_coverage@[a].first_sequence <= sequence_coverage@[a].last_sequence,
            forall|a: int, b: int| 0 <= a < b < i
                ==> (#[trigger] sequence_coverage@[a]).track_id@ != (#[trigger] sequence_coverage@[b]).track_id@,
        decreases sequence_coverage.len() - i,
    {
        let coverage = &sequence_coverage[i];
        if !find_track_text(tracks, coverage.track_id.as_str()) || coverage.first_sequence > coverage.last_sequence {
            return Err(String::from_str("recording sequence coverage is invalid"));
        }
        let mut j: usize = 0;
        while j < i
            invariant
                coverage_starts_at_zero(sequence_coverage@),
                j <= i < sequence_coverage.len(),
                forall|a: int| 0 <= a < j ==> (#[trigger] sequence_coverage@[a]).track_id@ != sequence_coverage@[i as int].track_id@,
            decreases i - j,
        {
            if same_text(sequence_coverage[j].track_id.as_str(), sequence_coverage[i].track_id.as_str()) {
                assert(!coverage_entries_valid(tracks@, sequence_coverage@)) by {
                    assert(sequence_coverage@[j as int].track_id@ == sequence_coverage@[i as int].track_id@);
                }
                return Err(String::from_str("recording sequence coverage is invalid"));
            }
            j = j + 1;
        }
        i = i + 1;
    }
    let mut i: usize = 0;
    while i < tracks.len()
        invariant
            coverage_starts_at_zero(sequence_coverage@),
            coverage_entries_valid(tracks@, sequence_coverage@),
            i <= tracks.len(),
            forall|a: int| 0 <= a < i ==> has_coverage(sequence_coverage@, (#[trigger] tracks@[a]).track_id@),
        decreases tracks.len() - i,
    {
        if find_coverage_text(sequence_coverage, tracks[i].track_id.as_str()).is_none() {
            return Err(String::from_str("recording track has no sequence coverage"));
        }
        i = i + 1;
    }
    let mut i: usize = 0;
    while i < sequence_gaps.len()
        invariant
            coverage_starts_at_zero(sequence_coverage@),
            coverage_entries_valid(tracks@, sequence_coverage@),
            tracks_covered(tracks@, sequence_coverage@),
            i <= sequence_gaps.len(),
            forall|k: int| 0 <= k < i ==> #[trigger] sequence_gap_refusal(sequence_coverage@, sequence_gaps@, k) is None,
        decreases sequence_gaps.len() - i,
    {
        match check_sequence_gap(sequence_coverage, sequence_gaps, i) {
            Ok(()) => {},
            Err(e) => {
                assert(sequence_gap_refusal(sequence_coverage@, sequence_gaps@, i as int) is Some);
                return Err(e);
            },
        }
        i = i + 1;
    }
    match sequence_gap_overflow {
        Some(overflow) => {
            if overflow.detail_capacity != MAX_SEQUENCE_GAP_DETAILS as u32
                || sequence_gaps.len() != MAX_SEQUENCE_GAP_DETAILS
                || overflow.omitted_gap_count == 0
                || overflow.omitted_dropped_frames == 0 {
                return Err(String::from_str("recording sequence-gap overflow is invalid"));
            }
        },
        None => {},
    }
    if (sequence_gaps.len() != 0 || sequence_gap_overflow.is_some()) && !sink_degraded {
        return Err(String::from_str("recording sequence degradation is inconsistent"));
    }
    if sink_degraded || sequence_gaps.len() != 0 || sequence_gap_overflow.is_some() {
        return Err(String::from_str("degraded recording metadata cannot be complete"));
    }
    Ok(())
}

/// The commit manifest that publishes a complete recording.
#[derive(Debug, Clone, PartialEq, Eq)]
pub struct CaptureCommitManifest {
    pub schema_version: u16,
    pub session_id: SessionId,
    pub status: CaptureStatus,
    pub audio_file: String,
    pub audio_sha256: String,
    pub audio_bytes: u64,
    pub capture_sidecar_file: String,
    pub capture_sidecar_sha256: String,
    pub committed_at_utc: String,
    pub session_metadata: Option<SessionMetadata>,
}

/// The metadata a record carries, if any, belongs to the session `session`.
pub open spec fn metadata_belongs(metadata: Option<SessionMetadata>, session: Seq<char>) -> bool {
    metadata matches Some(m) ==> m.session_id@ == session
}

/// A manifest that may publish a complete recording: the current schema,
/// complete status, the session's own audio and sidecar names, valid hashes,
/// at least a WAV header of audio, an RFC 3339 commit time, and metadata of
/// the same session.
pub open spec fn manifest_valid(m: CaptureCommitManifest) -> bool {
    &&& m.schema_version == CAPTURE_SCHEMA_VERSION
    &&& m.status == CaptureStatus::Complete
    &&& is_artifact_basename(m.audio_file@)
    &&& is_artifact_basename(m.capture_sidecar_file@)
    &&& m.audio_file@ == session_artifact_name(m.session_id@, artifact_suffix(RecordingArtifact::Wav))
    &&& m.capture_sidecar_file@ == session_artifact_name(m.session_id@, artifact_suffix(RecordingArtifact::Sidecar))
    &&& is_sha256_hex(m.audio_sha256@)
    &&& is_sha256_hex(m.capture_sidecar_sha256@)
    &&& m.audio_bytes >= WAV_HEADER_BYTES
    &&& rfc3339_parses(m.committed_at_utc@)
    &&& metadata_belongs(m.session_metadata, m.session_id@)
}

/// Why a manifest may not publish a complete recording, checked in this
/// order; `None` when it may.
pub open spec fn manifest_refusal(m: CaptureCommitManifest) -> Option<Seq<char>> {
    if m.schema_version != CAPTURE_SCHEMA_VERSION {
        Some("unsupported capture commit schema"@)
    } else if m.status != CaptureStatus::Complete {
        Some("partial captures must not be published as committed history"@)
    } else if !is_artifact_basename(m.audio_file@) || !is_artifact_basename(m.capture_sidecar_file@) {
        Some("recording artifact names must be same-directory basenames"@)
    } else if m.audio_file@ != session_artifact_name(m.session_id@, artifact_suffix(RecordingArtifact::Wav))
        || m.capture_sidecar_file@ != session_artifact_name(m.session_id@, artifact_suffix(RecordingArtifact::Sidecar)) {
        Some("capture manifest artifact names do not match the session"@)
    } else if !is_sha256_hex(m.audio_sha256@) || !is_sha256_hex(m.capture_sidecar_sha256@) {
        Some("recording artifact hash is invalid"@)
    } else if m.audio_bytes < WAV_HEADER_BYTES {
        Some("capture manifest audio is shorter than a WAV header"@)
    } else if !rfc3339_parses(m.committed_at_utc@) {
        Some("capture manifest has an invalid commit timestamp"@)
    } else if !metadata_belongs(m.session_metadata, m.session_id@) {
        Some("capture session metadata does not match the recording session"@)
    } else {
        None
    }
}

impl CaptureCommitManifest {
    /// Refuses a manifest that may not publish a complete recording.
    pub fn validate(&self) -> (r: Result<(), String>)
        ensures
            r is Ok <==> manifest_valid(*self),
            r matches Err(e) ==> manifest_refusal(*self) == Some(e@),
    {
        if self.schema_version != CAPTURE_SCHEMA_VERSION {
            return Err(String::from_str("unsupported capture commit schema"));
        }
        if self.status != CaptureStatus::Complete {
            return Err(String::from_str("partial captures must not be published as committed history"));
        }
        validate_artifact_name(self.audio_file.as_str())?;
        validate_artifact_name(self.capture_sidecar_file.as_str())?;
        let audio = artifact_file_name(&self.session_id, RecordingArtifact::Wav);
        let sidecar = artifact_file_name(&self.session_id, RecordingArtifact::Sidecar);
        if !same_text(self.audio_file.as_str(), audio.as_str())
            || !same_text(self.capture_sidecar_file.as_str(), sidecar.as_str()) {
            return Err(String::from_str("capture manifest artifact names do not match the session"));
        }
        validate_sha256(self.audio_sha256.as_str())?;
        validate_sha256(self.capture_sidecar_sha256.as_str())?;
        if self.audio_bytes < WAV_HEADER_BYTES {
            return Err(String::from_str("capture manifest audio is shorter than a WAV header"));
        }
        if !parses_as_rfc3339(self.committed_at_utc.as_str()) {
            return Err(String::from_str("capture manifest has an invalid commit timestamp"));
        }
        match &self.session_metadata {
            Some(metadata) => validate_capture_metadata(metadata, &self.session_id),
            None => Ok(()),
        }
    }
}

/// The commit that publishes a recovered partial recording.
#[derive(Debug, Clone, PartialEq, Eq)]
pub struct PartialRecoveryCommit {
    pub schema_version: u16,
    pub session_id: SessionId,
    pub status: CaptureStatus,
    pub audio_file: String,
    pub audio_sha256: String,
    pub audio_bytes: u64,
    pub capture_sidecar_file: String,
    pub capture_sidecar_sha256: String,
    pub committed_at_utc: String,
}

/// A partial-recovery commit of the supported shape.
pub open spec fn partial_commit_valid(c: PartialRecoveryCommit) -> bool {
    &&& c.schema_version == CAPTURE_SCHEMA_VERSION
    &&& c.status == CaptureStatus::Partial
    &&& c.audio_file@ == session_artifact_name(c.session_id@, artifact_suffix(RecordingArtifact::Wav))
    &&& c.capture_sidecar_file@ == session_artifact_name(c.session_id@, artifact_suffix(RecordingArtifact::PartialSidecar))
    &&& c.audio_bytes >= WAV_HEADER_BYTES
    &&& is_artifact_basename(c.audio_file@)
    &&& is_artifact_basename(c.capture_sidecar_file@)
    &&& is_sha256_hex(c.audio_sha256@)
    &&& is_sha256_hex(c.capture_sidecar_sha256@)
    &&& rfc3339_parses(c.committed_at_utc@)
}

/// Why a partial-recovery commit is refused, checked in this order; `None`
/// when it is of the supported shape.
pub open spec fn partial_commit_refusal(c: PartialRecoveryCommit) -> Option<Seq<char>> {
    if c.schema_version != CAPTURE_SCHEMA_VERSION || c.status != CaptureStatus::Partial
        || c.audio_file@ != session_artifact_name(c.session_id@, artifact_suffix(RecordingArtifact::Wav))
        || c.capture_sidecar_file@ != session_artifact_name(c.session_id@, artifact_suffix(RecordingArtifact::PartialSidecar))
        || c.audio_bytes < WAV_HEADER_BYTES {
        Some("partial recovery commit has an unsupported shape"@)
    } else if !is_artifact_basename(c.audio_file@) || !is_artifact_basename(c.capture_sidecar_file@) {
        Some("recording artifact names must be same-directory basenames"@)
    } else if !is_sha256_hex(c.audio_sha256@) || !is_sha256_hex(c.capture_sidecar_sha256@) {
        Some("recording artifact hash is invalid"@)
    } else if !rfc3339_parses(c.committed_at_utc@) {
        Some("partial recovery commit has an invalid commit timestamp"@)
    } else {
        None
    }
}

impl PartialRecoveryCommit {
    /// Refuses a partial-recovery commit of an unsupported shape.
    pub fn validate(&self) -> (r: Result<(), String>)
        ensures
            r is Ok <==> partial_commit_valid(*self),
            r matches Err(e) ==> partial_commit_refusal(*self) == Some(e@),
    {
        let audio = artifact_file_name(&self.session_id, RecordingArtifact::Wav);
        let sidecar = artifact_file_name(&self.session_id, RecordingArtifact::PartialSidecar);
        if self.schema_version != CAPTURE_SCHEMA_VERSION
            || self.status != CaptureStatus::Partial
            || !same_text(self.audio_file.as_str(), audio.as_str())
            || !same_text(self.capture_sidecar_file.as_str(), sidecar.as_str())
            || self.audio_bytes < WAV_HEADER_BYTES {
            return Err(String::from_str("partial recovery commit has an unsupported shape"));
        }
        validate_artifact_name(self.audio_file.as_str())?;
        validate_artifact_name(self.capture_sidecar_file.as_str())?;
        validate_sha256(self.audio_sha256.as_str())?;
        validate_sha256(self.capture_sidecar_sha256.as_str())?;
        if !parses_as_rfc3339(self.committed_at_utc.as_str()) {
            return Err(String::from_str("partial recovery commit has an invalid commit timestamp"));
        }
        Ok(())
    }
}

/// The sidecar a complete recording is published with.
#[derive(Debug, Clone)]
pub struct CaptureSidecar {
    pub schema_version: u16,
    pub session_id: SessionId,
    pub audio_file: String,
    pub audio_sha256: String,
    pub audio_bytes: u64,
    pub tracks: Vec<JournalTrack>,
    pub track_configurations: Vec<TrackConfigurationRevision>,
    pub clock_mappings: Vec<ClockMappingRevision>,
    pub timeline_gaps: Vec<AudioGap>,
    pub sequence_coverage: Vec<SequenceCoverage>,
    pub sequence_gaps: Vec<SequenceGap>,
    pub sequence_gap_overflow: Option<SequenceGapOverflow>,
    pub sink_degraded: bool,
    pub directory_sync_supported: bool,
    pub session_metadata: Option<SessionMetadata>,
}

/// The sidecar of a partial recording.
#[derive(Debug, Clone, PartialEq, Eq)]
pub struct PartialCaptureSidecar {
    pub schema_version: u16,
    pub session_id: SessionId,
    pub status: CaptureStatus,
}

/// A sidecar that describes the manifest's recording completely and
/// consistently.
pub open spec fn sidecar_matches_manifest(s: CaptureSidecar, m: CaptureCommitManifest) -> bool {
    &&& s.schema_version == CAPTURE_SCHEMA_VERSION
    &&& s.session_id@ == m.session_id@
    &&& s.audio_file@ == m.audio_file@
    &&& s.audio_sha256@ == m.audio_sha256@
    &&& s.audio_bytes == m.audio_bytes
    &&& match (s.session_metadata, m.session_metadata) {
        (Some(x), Some(y)) => metadata_equal(x, y),
        (None, None) => true,
        _ => false,
    }
    &&& metadata_belongs(s.session_metadata, s.session_id@)
    &&& !(s.audio_bytes > WAV_HEADER_BYTES && s.tracks@.len() == 0)
    &&& timeline_metadata_valid(s.session_id@, s.tracks@, s.track_configurations@, s.clock_mappings@, s.timeline_gaps@)
    &&& complete_sequence_metadata(s.tracks@, s.sequence_coverage@, s.sequence_gaps@, s.sequence_gap_overflow, s.sink_degraded)
    &&& is_artifact_basename(s.audio_file@)
    &&& is_sha256_hex(s.audio_sha256@)
}

impl CaptureSidecar {
    /// Refuses a sidecar that does not completely and consistently describe
    /// the manifest's recording.
    pub fn validate(&self, manifest: &CaptureCommitManifest) -> (r: Result<(), String>)
        ensures
            r is Ok <==> sidecar_matches_manifest(*self, *manifest),
    {
        if self.schema_version != CAPTURE_SCHEMA_VERSION
            || !self.session_id.same_as(&manifest.session_id)
            || !same_text(self.audio_file.as_str(), manifest.audio_file.as_str())
            || !same_text(self.audio_sha256.as_str(), manifest.audio_sha256.as_str())
            || self.audio_bytes != manifest.audio_bytes {
            return Err(String::from_str("capture sidecar does not match the commit manifest"));
        }
        if !same_optional_metadata(&self.session_metadata, &manifest.session_metadata) {
            return Err(String::from_str("capture session metadata does not match the commit manifest"));
        }
        match &self.session_metadata {
            Some(metadata) => validate_capture_metadata(metadata, &self.session_id)?,
            None => {},
        }
        validate_audio_metadata_presence(self.audio_bytes, &self.tracks)?;
        validate_timeline_control_metadata(
            &self.session_id,
            &self.tracks,
            &self.track_configurations,
            &self.clock_mappings,
            &self.timeline_gaps,
        )?;
        validate_sequence_metadata(
            &self.tracks,
            &self.sequence_coverage,
            &self.sequence_gaps,
            &self.sequence_gap_overflow,
            self.sink_degraded,
        )?;
        validate_artifact_name(self.audio_file.as_str())?;
        validate_sha256(self.audio_sha256.as_str())
    }
}

/// What the recorder learned from a committed recording's files: the audio
/// file's length and hash, and the sidecar's hash.
pub open spec fn committed_files_match(
    m: CaptureCommitManifest,
    audio_length: u64,
    audio_sha256: Seq<char>,
    sidecar_sha256: Seq<char>,
) -> bool {
    &&& audio_length == m.audio_bytes
    &&& audio_sha256 == m.audio_sha256@
    &&& sidecar_sha256 == m.capture_sidecar_sha256@
}

/// A committed recording is trusted when its manifest is valid, its files
/// have the length and hashes the manifest names, and its sidecar describes
/// it completely.
pub fn check_committed_capture(
    manifest: &CaptureCommitManifest,
    audio_length: u64,
    audio_sha256: &str,
    sidecar_sha256: &str,
    sidecar: &CaptureSidecar,
) -> (r: Result<(), String>)
    ensures
        r is Ok <==> manifest_valid(*manifest)
            && committed_files_match(*manifest, audio_length, audio_sha256@, sidecar_sha256@)
            && sidecar_matches_manifest(*sidecar, *manifest),
{
    manifest.validate()?;
    if audio_length != manifest.audio_bytes {
        return Err(String::from_str("committed audio size does not match the manifest"));
    }
    if !same_text(audio_sha256, manifest.audio_sha256.as_str())
        || !same_text(sidecar_sha256, manifest.capture_sidecar_sha256.as_str()) {
        return Err(String::from_str("committed recording artifact hash does not match the manifest"));
    }
    sidecar.validate(manifest)
}

/// A recording published complete.
#[derive(Debug, Clone, PartialEq, Eq)]
pub struct CommittedCapture {
    pub manifest: CaptureCommitManifest,
    pub directory: String,
}

/// Private artifacts of a recording that was never published.
#[derive(Debug, Clone, PartialEq, Eq)]
pub struct PartialCapture {
    pub session_id: Option<SessionId>,
    pub directory: String,
}

/// A recording published through a partial-recovery commit.
#[derive(Debug, Clone, PartialEq, Eq)]
pub struct RecoveredPartialCapture {
    pub session_id: SessionId,
    pub directory: String,
}

/// A commit manifest whose recording could not be trusted.
#[derive(Debug, Clone, PartialEq, Eq)]
pub struct DamagedCommittedCapture {
    pub session_id: SessionId,
    pub directory: String,
    pub reason: String,
}

/// The recordings found in a folder.
#[derive(Debug, Clone, PartialEq, Eq)]
pub struct RecordingScan {
    pub complete: Vec<CommittedCapture>,
    pub partial: Vec<PartialCapture>,
    pub recovered_partial: Vec<RecoveredPartialCapture>,
    pub damaged: Vec<DamagedCommittedCapture>,
}

impl RecordingScan {
    /// A scan with nothing in it.
    pub fn empty() -> (s: RecordingScan)
        ensures
            s.complete@.len() == 0,
            s.partial@.len() == 0,
            s.recovered_partial@.len() == 0,
            s.damaged@.len() == 0,
    {
        RecordingScan { complete: Vec::new(), partial: Vec::new(), recovered_partial: Vec::new(), damaged: Vec::new() }
    }

    /// Whether nothing at all was found.
    pub fn is_empty(&self) -> (b: bool)
        ensures
            b == (self.complete@.len() == 0 && self.partial@.len() == 0
                && self.recovered_partial@.len() == 0 && self.damaged@.len() == 0),
    {
        self.complete.len() == 0 && self.partial.len() == 0
            && self.recovered_partial.len() == 0 && self.damaged.len() == 0
    }

    /// How many complete recordings were found.
    pub fn len(&self) -> (n: usize)
        ensures
            n == self.complete@.len(),
    {
        self.complete.len()
    }
}

/// Which sidecar a partial recording's transcript results are bound to.
#[derive(Debug, Clone, PartialEq, Eq)]
pub struct PartialCaptureLineage {
    pub capture_sidecar_file: String,
    pub capture_sidecar_sha256: String,
}

/// How a recording's finalization ended.
#[derive(Debug, Clone, PartialEq, Eq)]
pub struct RecordingFinalizeResult {
    pub session_id: SessionId,
    pub status: CaptureStatus,
    pub committed: Option<CommittedCapture>,
    pub partial_lineage: Option<PartialCaptureLineage>,
    pub error: Option<String>,
}

/// The sidecar hash results are bound to: the committed manifest's, else the
/// partial lineage's.
pub open spec fn bound_sidecar_hash(r: RecordingFinalizeResult) -> Option<Seq<char>> {
    match r.committed {
        Some(c) => Some(c.manifest.capture_sidecar_sha256@),
        None => match r.partial_lineage {
            Some(l) => Some(l.capture_sidecar_sha256@),
            None => None,
        },
    }
}

impl RecordingFinalizeResult {
    pub fn capture_sidecar_sha256(&self) -> (h: Option<&str>)
        ensures
            match h {
                Some(s) => bound_sidecar_hash(*self) == Some(s@),
                None => bound_sidecar_hash(*self) is None,
            },
    {
        match &self.committed {
            Some(capture) => Some(capture.manifest.capture_sidecar_sha256.as_str()),
            None => match &self.partial_lineage {
                Some(lineage) => Some(lineage.capture_sidecar_sha256.as_str()),
                None => None,
            },
        }
    }
}

/// What the recorder found for one entry of the recordings folder.
#[derive(Debug, Clone, PartialEq, Eq)]
pub enum ScanFinding {
    /// A private artifact of an unpublished session.
    PrivateArtifact(SessionId),
    /// A published WAV without a commit whose partial lineage the session owns.
    OwnedOrphanWav(SessionId),
    /// A commit whose complete recording validated.
    Committed(CommittedCapture),
    /// A commit that recovered a partial recording.
    RecoveredPartial(RecoveredPartialCapture),
    /// A commit that neither validated nor recovered a partial recording.
    Damaged(DamagedCommittedCapture),
}

/// The finding points at session `t` as an unpublished candidate.
pub open spec fn finding_offers(f: ScanFinding, t: Seq<char>) -> bool {
    match f {
        ScanFinding::PrivateArtifact(id) => id@ == t,
        ScanFinding::OwnedOrphanWav(id) => id@ == t,
        _ => false,
    }
}

/// The finding accounts for session `t` through a commit.
pub open spec fn finding_claims(f: ScanFinding, t: Seq<char>) -> bool {
    match f {
        ScanFinding::Committed(c) => c.manifest.session_id@ == t,
        ScanFinding::RecoveredPartial(r) => r.session_id@ == t,
        ScanFinding::Damaged(d) => d.session_id@ == t,
        _ => false,
    }
}

/// Session `t` is an unpublished partial recording: something private points
/// at it and no commit accounts for it.
pub open spec fn partial_session(findings: Seq<ScanFinding>, t: Seq<char>) -> bool {
    &&& exists|i: int| 0 <= i < findings.len() && #[trigger] finding_offers(findings[i], t)
    &&& !exists|i: int| 0 <= i < findings.len() && #[trigger] finding_claims(findings[i], t)
}

pub open spec fn committed_of(findings: Seq<ScanFinding>) -> Seq<CommittedCapture>
    decreases findings.len(),
{
    if findings.len() == 0 {
        Seq::empty()
    } else {
        let rest = committed_of(findings.drop_last());
        match findings.last() {
            ScanFinding::Committed(c) => rest.push(c),
            _ => rest,
        }
    }
}

pub open spec fn recovered_of(findings: Seq<ScanFinding>) -> Seq<RecoveredPartialCapture>
    decreases findings.len(),
{
    if findings.len() == 0 {
        Seq::empty()
    } else {
        let rest = recovered_of(findings.drop_last());
        match findings.last() {
            ScanFinding::RecoveredPartial(r) => rest.push(r),
            _ => rest,
        }
    }
}

pub open spec fn damaged_of(findings: Seq<ScanFinding>) -> Seq<DamagedCommittedCapture>
    decreases findings.len(),
{
    if findings.len() == 0 {
        Seq::empty()
    } else {
        let rest = damaged_of(findings.drop_last());
        match findings.last() {
            ScanFinding::Damaged(d) => rest.push(d),
            _ => rest,
        }
    }
}

/// The session a partial entry names (empty when it names none).
pub open spec fn partial_id(p: PartialCapture) -> Seq<char> {
    match p.session_id {
        Some(id) => id@,
        None => Seq::empty(),
    }
}

/// A folder scan assembled from its findings: commits in the order found,
/// and the unpublished partial sessions once each, in session order.
pub open spec fn scan_assembled(findings: Seq<ScanFinding>, directory: Seq<char>, scan: RecordingScan) -> bool {
    &&& scan.complete@ == committed_of(findings)
    &&& scan.recovered_partial@ == recovered_of(findings)
    &&& scan.damaged@ == damaged_of(findings)
    &&& forall|k: int| 0 <= k < scan.partial@.len()
        ==> (#[trigger] scan.partial@[k]).session_id is Some && scan.partial@[k].directory@ == directory
    &&& forall|a: int, b: int| 0 <= a < b < scan.partial@.len()
        ==> text_lt(partial_id(#[trigger] scan.partial@[a]), partial_id(#[trigger] scan.partial@[b]))
    &&& forall|t: Seq<char>| partial_session(findings, t)
        <==> exists|k: int| 0 <= k < scan.partial@.len() && partial_id(#[trigger] scan.partial@[k]) == t
}

/// Whether some identifier in `ids` has the text `t`.
pub open spec fn ids_hold(ids: Seq<SessionId>, t: Seq<char>) -> bool {
    exists|k: int| 0 <= k < ids.len() && (#[trigger] ids[k])@ == t
}

/// Whether one of the first `n` findings offers session `t`.
pub open spec fn offered_within(findings: Seq<ScanFinding>, n: int, t: Seq<char>) -> bool {
    exists|i: int| 0 <= i < n && #[trigger] finding_offers(findings[i], t)
}

/// Whether one of the first `n` findings claims session `t`.
pub open spec fn claimed_within(findings: Seq<ScanFinding>, n: int, t: Seq<char>) -> bool {
    exists|i: int| 0 <= i < n && #[trigger] finding_claims(findings[i], t)
}

fn contains_id(ids: &Vec<SessionId>, id: &SessionId) -> (r: bool)
    ensures
        r == ids_hold(ids@, id@),
{
    let mut i: usize = 0;
    while i < ids.len()
        invariant
            i <= ids.len(),
            forall|k: int| 0 <= k < i ==> (#[trigger] ids@[k])@ != id@,
        decreases ids.len() - i,
    {
        if ids[i].same_as(id) {
            return true;
        }
        i = i + 1;
    }
    false
}

/// Inserts `id` into strictly ordered `ids` unless it is already there.
fn insert_sorted(ids: &mut Vec<SessionId>, id: SessionId)
    requires
        forall|a: int, b: int| 0 <= a < b < old(ids)@.len() ==> text_lt((#[trigger] old(ids)@[a])@, (#[trigger] old(ids)@[b])@),
    ensures
        forall|a: int, b: int| 0 <= a < b < final(ids)@.len() ==> text_lt((#[trigger] final(ids)@[a])@, (#[trigger] final(ids)@[b])@),
        forall|t: Seq<char>| #[trigger] ids_hold(final(ids)@, t) <==> (ids_hold(old(ids)@, t) || t == id@),
{
    let ghost before = ids@;
    let mut j: usize = 0;
    while j < ids.len() && text_less(ids[j].as_str(), id.as_str())
        invariant
            j <= ids.len(),
            ids@ == before,
            forall|k: int| 0 <= k < j ==> text_lt((#[trigger] ids@[k])@, id@),
        decreases ids.len() - j,
    {
        j = j + 1;
    }
    if j < ids.len() && ids[j].same_as(&id) {
        proof {
            assert forall|t: Seq<char>| #[trigger] ids_hold(ids@, t) <==> (ids_hold(before, t) || t == id@) by {
                if t == id@ {
                    assert(ids@[j as int]@ == t);
                }
            }
        }
        return;
    }
    proof {
        if j < before.len() {
            lemma_text_lt_total(before[j as int]@, id@);
            assert forall|k: int| j <= k < before.len() implies text_lt(id@, (#[trigger] before[k])@) by {
                if k > j {
                    lemma_text_lt_transitive(id@, before[j as int]@, before[k]@);
                }
            }
        }
    }
    ids.insert(j, id);
    proof {
        assert(ids@ == before.insert(j as int, id));
        assert forall|a: int, b: int| 0 <= a < b < ids@.len() implies text_lt((#[trigger] ids@[a])@, (#[trigger] ids@[b])@) by {
            if b < j {
            } else if a < j && b == j {
            } else if a < j {
                lemma_text_lt_transitive(before[a]@, id@, before[b - 1]@);
            } else if a == j {
            } else {
            }
        }
        assert forall|t: Seq<char>| #[trigger] ids_hold(ids@, t) <==> (ids_hold(before, t) || t == id@) by {
            if t == id@ {
                assert(ids@[j as int]@ == t);
            }
            if ids_hold(before, t) {
                let k = choose|k: int| 0 <= k < before.len() && (#[trigger] before[k])@ == t;
                if k < j {
                    assert(ids@[k]@ == t);
                } else {
                    assert(ids@[k + 1]@ == t);
                }
            }
            if ids_hold(ids@, t) {
                let k = choose|k: int| 0 <= k < ids@.len() && (#[trigger] ids@[k])@ == t;
                if k < j {
                    assert(before[k]@ == t);
                } else if k > j {
                    assert(before[k - 1]@ == t);
                }
            }
        }
    }
}

/// Assembles a folder scan from what was found in it.
pub fn assemble_scan(findings: Vec<ScanFinding>, directory: &str) -> (scan: RecordingScan)
    ensures
        scan_assembled(findings@, directory@, scan),
{
    let ghost all = findings@;
    let mut remaining = findings;
    let mut scan = RecordingScan::empty();
    let mut offered: Vec<SessionId> = Vec::new();
    let mut claimed: Vec<SessionId> = Vec::new();
    let ghost mut taken: int = 0;
    proof {
        assert(all.subrange(0, all.len() as int) =~= all);
        assert(all.take(0) =~= Seq::<ScanFinding>::empty());
    }
    while remaining.len() > 0
        invariant
            0 <= taken <= all.len(),
            remaining@ == all.subrange(taken, all.len() as int),
            scan.complete@ == committed_of(all.take(taken)),
            scan.recovered_partial@ == recovered_of(all.take(taken)),
            scan.damaged@ == damaged_of(all.take(taken)),
            scan.partial@.len() == 0,
            forall|t: Seq<char>| #[trigger] ids_hold(offered@, t) <==> offered_within(all, taken, t),
            forall|t: Seq<char>| #[trigger] ids_hold(claimed@, t) <==> claimed_within(all, taken, t),
        decreases remaining.len(),
    {
        let finding = remaining.remove(0);
        proof {
            assert(finding == all[taken]);
            assert(all.take(taken + 1).drop_last() =~= all.take(taken));
            assert(all.take(taken + 1).last() == all[taken]);
        }
        let ghost offered_before = offered@;
        let ghost claimed_before = claimed@;
        match finding {
            ScanFinding::PrivateArtifact(id) => {
                offered.push(id);
            },
            ScanFinding::OwnedOrphanWav(id) => {
                offered.push(id);
            },
            ScanFinding::Committed(capture) => {
                claimed.push(capture.manifest.session_id.duplicate());
                scan.complete.push(capture);
            },
            ScanFinding::RecoveredPartial(recovered) => {
                claimed.push(recovered.session_id.duplicate());
                scan.recovered_partial.push(recovered);
            },
            ScanFinding::Damaged(damaged) => {
                claimed.push(damaged.session_id.duplicate());
                scan.damaged.push(damaged);
            },
        }
        proof {
            assert forall|t: Seq<char>| #[trigger] ids_hold(offered@, t) <==> offered_within(all, taken + 1, t) by {
                if offered_within(all, taken + 1, t) {
                    let i = choose|i: int| 0 <= i < taken + 1 && #[trigger] finding_offers(all[i], t);
                    if i < taken {
                        assert(offered_within(all, taken, t));
                        assert(ids_hold(offered_before, t));
                        let k = choose|k: int| 0 <= k < offered_before.len() && (#[trigger] offered_before[k])@ == t;
                        assert(offered@[k]@ == t);
                    } else {
                        assert(offered@[offered@.len() - 1]@ == t);
                    }
                }
                if ids_hold(offered@, t) {
                    let k = choose|k: int| 0 <= k < offered@.len() && (#[trigger] offered@[k])@ == t;
                    if k < offered_before.len() {
                        assert(offered_before[k]@ == t);
                        assert(ids_hold(offered_before, t));
                    } else {
                        assert(finding_offers(all[taken], t));
                    }
                }
            }
            assert forall|t: Seq<char>| #[trigger] ids_hold(claimed@, t) <==> claimed_within(all, taken + 1, t) by {
                if claimed_within(all, taken + 1, t) {
                    let i = choose|i: int| 0 <= i < taken + 1 && #[trigger] finding_claims(all[i], t);
                    if i < taken {
                        assert(claimed_within(all, taken, t));
                        assert(ids_hold(claimed_before, t));
                        let k = choose|k: int| 0 <= k < claimed_before.len() && (#[trigger] claimed_before[k])@ == t;
                        assert(claimed@[k]@ == t);
                    } else {
                        assert(claimed@[claimed@.len() - 1]@ == t);
                    }
                }
                if ids_hold(claimed@, t) {
                    let k = choose|k: int| 0 <= k < claimed@.len() && (#[trigger] claimed@[k])@ == t;
                    if k < claimed_before.len() {
                        assert(claimed_before[k]@ == t);
                        assert(ids_hold(claimed_before, t));
                    } else {
                        assert(finding_claims(all[taken], t));
                    }
                }
            }
            taken = taken + 1;
            assert(remaining@ =~= all.subrange(taken, all.len() as int));
        }
    }
    proof {
        assert(all.take(taken) =~= all);
    }
    let mut ordered: Vec<SessionId> = Vec::new();
    let mut i: usize = 0;
    while i < offered.len()
        invariant
            i <= offered.len(),
            forall|a: int, b: int| 0 <= a < b < ordered@.len() ==> text_lt((#[trigger] ordered@[a])@, (#[trigger] ordered@[b])@),
            forall|t: Seq<char>| #[trigger] ids_hold(ordered@, t)
                <==> (ids_hold(offered@.take(i as int), t) && !ids_hold(claimed@, t)),
        decreases offered.len() - i,
    {
        let id = offered[i].duplicate();
        let ghost before = ordered@;
        let is_claimed = contains_id(&claimed, &id);
        if !is_claimed {
            insert_sorted(&mut ordered, id);
        }
        proof {
            assert forall|t: Seq<char>| #[trigger] ids_hold(ordered@, t)
                <==> (ids_hold(offered@.take(i + 1), t) && !ids_hold(claimed@, t)) by {
                if ids_hold(offered@.take(i + 1), t) {
                    let k = choose|k: int| 0 <= k < offered@.take(i + 1).len() && (#[trigger] offered@.take(i + 1)[k])@ == t;
                    if k < i {
                        assert(offered@.take(i as int)[k]@ == t);
                    }
                }
                if ids_hold(offered@.take(i as int), t) {
                    let k = choose|k: int| 0 <= k < offered@.take(i as int).len() && (#[trigger] offered@.take(i as int)[k])@ == t;
                    assert(offered@.take(i + 1)[k]@ == t);
                }
                if t == offered@[i as int]@ {
                    assert(offered@.take(i + 1)[i as int]@ == t);
                }
            }
        }
        i = i + 1;
    }
    proof {
        assert(offered@.take(offered@.len() as int) =~= offered@);
    }
    let mut j: usize = 0;
    while j < ordered.len()
        invariant
            j <= ordered.len(),
            scan.complete@ == committed_of(all),
            scan.recovered_partial@ == recovered_of(all),
            scan.damaged@ == damaged_of(all),
            scan.partial@.len() == j,
            forall|k: int| 0 <= k < j ==> (#[trigger] scan.partial@[k]).session_id is Some
                && scan.partial@[k].directory@ == directory@
                && partial_id(scan.partial@[k]) == ordered@[k]@,
        decreases ordered.len() - j,
    {
        scan.partial.push(PartialCapture {
            session_id: Some(ordered[j].duplicate()),
            directory: String::from_str(directory),
        });
        j = j + 1;
    }
    proof {
        assert forall|a: int, b: int| 0 <= a < b < scan.partial@.len()
            implies text_lt(partial_id(#[trigger] scan.partial@[a]), partial_id(#[trigger] scan.partial@[b])) by {
            assert(text_lt(ordered@[a]@, ordered@[b]@));
        }
        assert forall|t: Seq<char>| partial_session(all, t)
            <==> exists|k: int| 0 <= k < scan.partial@.len() && partial_id(#[trigger] scan.partial@[k]) == t by {
            assert(ids_hold(offered@, t) <==> offered_within(all, all.len() as int, t));
            assert(ids_hold(claimed@, t) <==> claimed_within(all, all.len() as int, t));
            if exists|k: int| 0 <= k < scan.partial@.len() && partial_id(#[trigger] scan.partial@[k]) == t {
                let k = choose|k: int| 0 <= k < scan.partial@.len() && partial_id(#[trigger] scan.partial@[k]) == t;
                assert(ordered@[k]@ == t);
                assert(ids_hold(ordered@, t));
            }
            if partial_session(all, t) {
                assert(ids_hold(ordered@, t));
                let k = choose|k: int| 0 <= k < ordered@.len() && (#[trigger] ordered@[k])@ == t;
                assert(partial_id(scan.partial@[k]) == t);
            }
        }
    }
    scan
}

/// Why a commit was damaged, with at most 160 characters of detail.
pub fn bounded_scan_reason(error: &str) -> (reason: String)
    ensures
        reason@ == "Damaged complete capture commit: "@ + error@.take(
            if error@.len() < 160 { error@.len() as int } else { 160 },
        ),
{
    let chars = chars_of(error);
    let keep: usize = if chars.len() < 160 { chars.len() } else { 160 };
    let mut detail: Vec<char> = Vec::new();
    let mut i: usize = 0;
    while i < keep
        invariant
            keep <= chars.len(),
            chars@ == error@,
            i <= keep,
            detail@ == chars@.take(i as int),
        decreases keep - i,
    {
        detail.push(chars[i]);
        proof {
            assert(chars@.take(i + 1) == chars@.take(i as int).push(chars@[i as int]));
        }
        i = i + 1;
    }
    let mut reason = String::from_str("Damaged complete capture commit: ");
    let detail_text = string_from_chars(detail.as_slice());
    reason.append(detail_text.as_str());
    reason
}

/// A partial sidecar the session owns: current schema, same session, partial.
pub fn partial_sidecar_is_owned(sidecar: &PartialCaptureSidecar, session_id: &SessionId) -> (r: bool)
    ensures
        r == (sidecar.schema_version == CAPTURE_SCHEMA_VERSION && sidecar.session_id@ == session_id@
            && sidecar.status == CaptureStatus::Partial),
{
    sidecar.schema_version == CAPTURE_SCHEMA_VERSION && sidecar.session_id.same_as(session_id)
        && sidecar.status == CaptureStatus::Partial
}

/// A recovered partial recording is trusted when its commit has the
/// supported shape and names the session of its file, its files have the
/// length and hashes the commit names, and its sidecar is the session's own
/// partial sidecar.
pub open spec fn recovered_partial_trusted(
    commit: PartialRecoveryCommit,
    expected: Seq<char>,
    audio_length: u64,
    audio_sha256: Seq<char>,
    sidecar_sha256: Seq<char>,
    sidecar: PartialCaptureSidecar,
) -> bool {
    &&& partial_commit_valid(commit)
    &&& commit.session_id@ == expected
    &&& audio_length == commit.audio_bytes
    &&& audio_sha256 == commit.audio_sha256@
    &&& sidecar_sha256 == commit.capture_sidecar_sha256@
    &&& sidecar.schema_version == CAPTURE_SCHEMA_VERSION
    &&& sidecar.session_id@ == expected
    &&& sidecar.status == CaptureStatus::Partial
}

/// Checks what was read of a partial-recovery commit's files against it.
pub fn check_recovered_partial(
    commit: &PartialRecoveryCommit,
    expected: &SessionId,
    audio_length: u64,
    audio_sha256: &str,
    sidecar_sha256: &str,
    sidecar: &PartialCaptureSidecar,
) -> (r: Result<(), String>)
    ensures
        r is Ok <==> recovered_partial_trusted(
            *commit,
            expected@,
            audio_length,
            audio_sha256@,
            sidecar_sha256@,
            *sidecar,
        ),
{
    commit.validate()?;
    if !commit.session_id.same_as(expected) {
        return Err(String::from_str("partial recovery commit session does not match its file name"));
    }
    if audio_length != commit.audio_bytes || !same_text(audio_sha256, commit.audio_sha256.as_str())
        || !same_text(sidecar_sha256, commit.capture_sidecar_sha256.as_str()) {
        return Err(String::from_str("partial recovery artifact hash does not match the commit"));
    }
    if !partial_sidecar_is_owned(sidecar, expected) {
        return Err(String::from_str("partial recovery sidecar does not match the commit"));
    }
    Ok(())
}

/// How a commit found in the folder is counted: complete when its recording
/// was trusted, else recovered partial when the commit recovered one, else
/// damaged with the reason the complete recording was refused.
pub fn classify_commit(
    session_id: SessionId,
    directory: String,
    complete: Result<CommittedCapture, String>,
    recovered: Result<(), String>,
) -> (f: ScanFinding)
    ensures
        complete matches Ok(c) ==> f == ScanFinding::Committed(c),
        complete is Err && recovered is Ok ==> f == ScanFinding::RecoveredPartial(
            RecoveredPartialCapture { session_id, directory },
        ),
        recovered is Err ==> (complete matches Err(e) ==> (f matches ScanFinding::Damaged(d) && d.session_id
            == session_id && d.directory == directory && d.reason@ == "Damaged complete capture commit: "@
            + e@.take(if e@.len() < 160 { e@.len() as int } else { 160 }))),
{
    match complete {
        Ok(committed) => ScanFinding::Committed(committed),
        Err(error) => match recovered {
            Ok(()) => ScanFinding::RecoveredPartial(RecoveredPartialCapture { session_id, directory }),
            Err(_) => ScanFinding::Damaged(DamagedCommittedCapture {
                session_id,
                directory,
                reason: bounded_scan_reason(error.as_str()),
            }),
        },
    }
}

} // verus!
