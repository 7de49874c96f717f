//! The journal's append log: what part of a journal is already durable, the
//! delta record that brings the durable part up to date, and the replay of a
//! header and its deltas after a crash.

use vstd::prelude::*;
use crate::clock::{ClockMappingRevision, RecordingRevisionTransition};
use crate::frame::{AudioGap, TrackConfigurationRevision, same_gap};
use crate::journal::{
    CaptureJournal, JournalTrack, SequenceCoverage, SequenceGap, SequenceGapOverflow,
    CAPTURE_SCHEMA_VERSION, coverage_index, journal_track_index, transition_accepted_in,
    first_index_from, lemma_first_index_from, find_coverage, find_journal_track,
};
use crate::session::SessionId;
use crate::text::{same_text, split_on, split_chars, chars_of, string_from_chars, lemma_split_on_nonempty};
use crate::capture::{coverage_starts_at_zero, validate_initial_sequence_coverage};
use crate::sidecar::{timeline_metadata_valid, validate_timeline_control_metadata};

verus! {

/// What the journal file already holds, as of the last record written.
#[derive(Debug, Clone)]
pub struct DurableJournalState {
    pub tracks: Vec<String>,
    pub revision_transitions: usize,
    pub timeline_gaps: Vec<AudioGap>,
    pub sequence_coverage: Vec<SequenceCoverage>,
    pub sequence_gaps: usize,
}

/// The changes since the durable state, written as one journal record.
#[derive(Debug, Clone)]
pub struct JournalDelta {
    pub schema_version: u16,
    pub session_id: SessionId,
    pub tracks: Vec<JournalTrack>,
    pub revision_transitions: Vec<RecordingRevisionTransition>,
    pub timeline_gap_start_index: usize,
    pub timeline_gaps: Vec<AudioGap>,
    pub sequence_coverage: Vec<SequenceCoverage>,
    pub gap_start_index: usize,
    pub sequence_gaps: Vec<SequenceGap>,
    pub sequence_gap_overflow: Option<SequenceGapOverflow>,
    pub sink_degraded: bool,
}

/// One record of the append log.
#[derive(Debug, Clone)]
pub enum JournalRecord {
    Header(CaptureJournal),
    Delta(JournalDelta),
    Overflow { session_id: SessionId, reason: String },
}

/// Pointwise, two gap lists agree field by field.
pub open spec fn same_gaps(a: Seq<AudioGap>, b: Seq<AudioGap>) -> bool {
    a.len() == b.len() && forall|i: int| 0 <= i < a.len() ==> same_gap(#[trigger] a[i], b[i])
}

fn gap_equal(a: &AudioGap, b: &AudioGap) -> (r: bool)
    ensures
        r == same_gap(*a, *b),
{
    a.session_id.same_as(&b.session_id)
        && a.track_id.same_as(&b.track_id)
        && a.start_ms == b.start_ms
        && a.duration_ms == b.duration_ms
        && a.source_position_frames == b.source_position_frames
        && a.dropped_frames == b.dropped_frames
        && a.cause == b.cause
        && a.generation == b.generation
}

fn duplicate_gaps(gaps: &Vec<AudioGap>, from: usize) -> (r: Vec<AudioGap>)
    requires
        from <= gaps.len(),
    ensures
        r@ == gaps@.skip(from as int),
{
    let mut r: Vec<AudioGap> = Vec::new();
    let mut i: usize = from;
    while i < gaps.len()
        invariant
            from <= i <= gaps.len(),
            r@ == gaps@.subrange(from as int, i as int),
        decreases gaps.len() - i,
    {
        r.push(gaps[i].duplicate());
        proof {
            assert(gaps@.subrange(from as int, i + 1) == gaps@.subrange(from as int, i as int).push(gaps@[i as int]));
        }
        i = i + 1;
    }
    proof {
        assert(gaps@.subrange(from as int, gaps@.len() as int) == gaps@.skip(from as int));
    }
    r
}

/// The first position from `k` where two gap lists differ, or the shorter
/// length.
pub open spec fn first_difference_from(durable: Seq<AudioGap>, current: Seq<AudioGap>, k: int) -> int
    decreases shorter_len(durable, current) - k,
{
    if k >= shorter_len(durable, current) {
        shorter_len(durable, current)
    } else if !same_gap(durable[k], current[k]) {
        k
    } else {
        first_difference_from(durable, current, k + 1)
    }
}

/// The length of the shorter list.
pub open spec fn shorter_len(a: Seq<AudioGap>, b: Seq<AudioGap>) -> int {
    if a.len() < b.len() { a.len() as int } else { b.len() as int }
}

/// The first position where two gap lists differ, or the shorter length.
pub open spec fn first_changed(durable: Seq<AudioGap>, current: Seq<AudioGap>) -> int {
    first_difference_from(durable, current, 0)
}

pub proof fn lemma_first_difference(durable: Seq<AudioGap>, current: Seq<AudioGap>, k: int)
    requires
        0 <= k <= shorter_len(durable, current),
    ensures
        k <= first_difference_from(durable, current, k) <= shorter_len(durable, current),
        forall|j: int| k <= j < first_difference_from(durable, current, k) ==> same_gap(#[trigger] durable[j], current[j]),
    decreases shorter_len(durable, current) - k,
{
    if k < shorter_len(durable, current) && same_gap(durable[k], current[k]) {
        lemma_first_difference(durable, current, k + 1);
    }
}

pub fn first_changed_index(durable: &Vec<AudioGap>, current: &Vec<AudioGap>) -> (r: usize)
    ensures
        r == first_changed(durable@, current@),
        r <= durable.len(),
        r <= current.len(),
{
    let n = if durable.len() < current.len() { durable.len() } else { current.len() };
    proof {
        lemma_first_difference(durable@, current@, 0);
    }
    let mut i: usize = 0;
    while i < n
        invariant
            i <= n,
            n == shorter_len(durable@, current@),
            n <= durable.len(),
            n <= current.len(),
            first_changed(durable@, current@) == first_difference_from(durable@, current@, i as int),
        decreases n - i,
    {
        if !gap_equal(&durable[i], &current[i]) {
            return i;
        }
        i = i + 1;
    }
    n
}

/// The durable state is exactly what `journal` holds.
pub open spec fn durable_of(d: DurableJournalState, j: CaptureJournal) -> bool {
    &&& d.tracks@.len() == j.tracks@.len()
    &&& forall|i: int| 0 <= i < d.tracks@.len() ==> (#[trigger] d.tracks@[i])@ == j.tracks@[i].track_id@
    &&& d.revision_transitions == j.track_configurations@.len()
    &&& d.timeline_gaps@ == j.timeline_gaps@
    &&& d.sequence_coverage@ == j.sequence_coverage@
    &&& d.sequence_gaps == j.sequence_gaps@.len()
}

/// Whether the durable state holds track `t`.
pub open spec fn durable_has_track(d: Seq<String>, t: Seq<char>) -> bool {
    exists|k: int| 0 <= k < d.len() && (#[trigger] d[k])@ == t
}

/// The durable state holds coverage entry `c` as it is (same track, same
/// first and last sequence).
pub open spec fn durable_coverage_matches(d: Seq<SequenceCoverage>, c: SequenceCoverage) -> bool {
    match coverage_index(d, c.track_id@) {
        Some(i) => d[i].first_sequence == c.first_sequence && d[i].last_sequence == c.last_sequence,
        None => false,
    }
}

/// The journal's tracks that the durable state does not hold, in order.
pub open spec fn new_tracks(durable: Seq<String>, tracks: Seq<JournalTrack>) -> Seq<JournalTrack>
    decreases tracks.len(),
{
    if tracks.len() == 0 {
        Seq::empty()
    } else {
        let rest = new_tracks(durable, tracks.drop_last());
        if durable_has_track(durable, tracks.last().track_id@) { rest } else { rest.push(tracks.last()) }
    }
}

/// The journal's coverage entries that differ from the durable ones, in order.
pub open spec fn changed_coverage(durable: Seq<SequenceCoverage>, coverage: Seq<SequenceCoverage>) -> Seq<SequenceCoverage>
    decreases coverage.len(),
{
    if coverage.len() == 0 {
        Seq::empty()
    } else {
        let rest = changed_coverage(durable, coverage.drop_last());
        if durable_coverage_matches(durable, coverage.last()) {
            rest
        } else {
            rest.push(coverage.last())
        }
    }
}

impl DurableJournalState {
    /// The durable state right after `journal` was written whole.
    pub fn from_journal(journal: &CaptureJournal) -> (d: DurableJournalState)
        ensures
            durable_of(d, *journal),
    {
        let mut tracks: Vec<String> = Vec::new();
        let mut i: usize = 0;
        while i < journal.tracks.len()
            invariant
                i <= journal.tracks.len(),
                tracks@.len() == i,
                forall|k: int| 0 <= k < i ==> (#[trigger] tracks@[k])@ == journal.tracks@[k].track_id@,
            decreases journal.tracks.len() - i,
        {
            tracks.push(journal.tracks[i].track_id.clone());
            i = i + 1;
        }
        let mut coverage: Vec<SequenceCoverage> = Vec::new();
        let mut i: usize = 0;
        while i < journal.sequence_coverage.len()
            invariant
                i <= journal.sequence_coverage.len(),
                coverage@ == journal.sequence_coverage@.take(i as int),
            decreases journal.sequence_coverage.len() - i,
        {
            coverage.push(journal.sequence_coverage[i].duplicate());
            proof {
                assert(journal.sequence_coverage@.take(i + 1) == journal.sequence_coverage@.take(i as int).push(journal.sequence_coverage@[i as int]));
            }
            i = i + 1;
        }
        proof {
            assert(journal.sequence_coverage@.take(journal.sequence_coverage@.len() as int) == journal.sequence_coverage@);
            assert(journal.timeline_gaps@.skip(0) == journal.timeline_gaps@);
        }
        DurableJournalState {
            tracks,
            revision_transitions: journal.track_configurations.len(),
            timeline_gaps: duplicate_gaps(&journal.timeline_gaps, 0),
            sequence_coverage: coverage,
            sequence_gaps: journal.sequence_gaps.len(),
        }
    }
}

fn duplicate_sequence_gaps(gaps: &Vec<SequenceGap>, from: usize) -> (r: Vec<SequenceGap>)
    requires
        from <= gaps.len(),
    ensures
        r@ == gaps@.skip(from as int),
{
    let mut r: Vec<SequenceGap> = Vec::new();
    let mut i: usize = from;
    while i < gaps.len()
        invariant
            from <= i <= gaps.len(),
            r@ == gaps@.subrange(from as int, i as int),
        decreases gaps.len() - i,
    {
        r.push(gaps[i].duplicate());
        proof {
            assert(gaps@.subrange(from as int, i + 1) == gaps@.subrange(from as int, i as int).push(gaps@[i as int]));
        }
        i = i + 1;
    }
    proof {
        assert(gaps@.subrange(from as int, gaps@.len() as int) == gaps@.skip(from as int));
    }
    r
}

fn holds_track(durable: &Vec<String>, t: &str) -> (r: bool)
    ensures
        r == durable_has_track(durable@, t@),
{
    let mut i: usize = 0;
    while i < durable.len()
        invariant
            i <= durable.len(),
            forall|k: int| 0 <= k < i ==> (#[trigger] durable@[k])@ != t@,
        decreases durable.len() - i,
    {
        if same_text(durable[i].as_str(), t) {
            return true;
        }
        i = i + 1;
    }
    false
}

fn coverage_unchanged(durable: &Vec<SequenceCoverage>, c: &SequenceCoverage) -> (r: bool)
    ensures
        r == durable_coverage_matches(durable@, *c),
{
    match find_coverage(durable, c.track_id.as_str()) {
        Some(i) => durable[i].first_sequence == c.first_sequence && durable[i].last_sequence == c.last_sequence,
        None => false,
    }
}

/// The saturating difference `n - 1`.
pub open spec fn previous_index(n: int) -> int {
    if n == 0 { 0 } else { n - 1 }
}

impl DurableJournalState {
    /// The record that brings the durable journal up to `journal`: tracks it
    /// does not hold yet, transitions after the durable ones, timeline gaps
    /// from the first one that changed, coverage entries that changed, and
    /// sequence gaps from the last durable one (which may have grown).
    pub fn delta(&self, journal: &CaptureJournal) -> (d: JournalDelta)
        requires
            self.revision_transitions <= journal.track_configurations@.len(),
            self.revision_transitions <= journal.clock_mappings@.len(),
            previous_index(self.sequence_gaps as int) <= journal.sequence_gaps@.len(),
        ensures
            d.schema_version == CAPTURE_SCHEMA_VERSION,
            d.session_id == journal.session_id,
            d.tracks@ == new_tracks(self.tracks@, journal.tracks@),
            d.revision_transitions@.len() + self.revision_transitions
                == if journal.track_configurations@.len() < journal.clock_mappings@.len() {
                    journal.track_configurations@.len()
                } else {
                    journal.clock_mappings@.len()
                },
            forall|k: int| 0 <= k < d.revision_transitions@.len() ==> {
                &&& (#[trigger] d.revision_transitions@[k]).configuration == journal.track_configurations@[self.revision_transitions + k]
                &&& d.revision_transitions@[k].clock_mapping == journal.clock_mappings@[self.revision_transitions + k]
            },
            d.timeline_gap_start_index == first_changed(self.timeline_gaps@, journal.timeline_gaps@),
            d.timeline_gaps@ == journal.timeline_gaps@.skip(d.timeline_gap_start_index as int),
            d.sequence_coverage@ == changed_coverage(self.sequence_coverage@, journal.sequence_coverage@),
            d.gap_start_index == previous_index(self.sequence_gaps as int),
            d.sequence_gaps@ == journal.sequence_gaps@.skip(d.gap_start_index as int),
            d.sequence_gap_overflow == journal.sequence_gap_overflow,
            d.sink_degraded == journal.sink_degraded,
    {
        let gap_start_index = self.sequence_gaps.saturating_sub(1);
        let timeline_gap_start_index = first_changed_index(&self.timeline_gaps, &journal.timeline_gaps);
        let mut tracks: Vec<JournalTrack> = Vec::new();
        let mut i: usize = 0;
        while i < journal.tracks.len()
            invariant
                i <= journal.tracks.len(),
                tracks@ == new_tracks(self.tracks@, journal.tracks@.take(i as int)),
            decreases journal.tracks.len() - i,
        {
            proof {
                assert(journal.tracks@.take(i + 1).drop_last() == journal.tracks@.take(i as int));
                assert(journal.tracks@.take(i + 1).last() == journal.tracks@[i as int]);
            }
            if !holds_track(&self.tracks, journal.tracks[i].track_id.as_str()) {
                tracks.push(journal.tracks[i].duplicate());
            }
            i = i + 1;
        }
        proof {
            assert(journal.tracks@.take(journal.tracks@.len() as int) == journal.tracks@);
        }
        let n = if journal.track_configurations.len() < journal.clock_mappings.len() {
            journal.track_configurations.len()
        } else {
            journal.clock_mappings.len()
        };
        let mut transitions: Vec<RecordingRevisionTransition> = Vec::new();
        let mut k: usize = self.revision_transitions;
        while k < n
            invariant
                self.revision_transitions <= k <= n,
                n <= journal.track_configurations@.len(),
                n <= journal.clock_mappings@.len(),
                transitions@.len() == k - self.revision_transitions,
                forall|m: int| 0 <= m < transitions@.len() ==> {
                    &&& (#[trigger] transitions@[m]).configuration == journal.track_configurations@[self.revision_transitions + m]
                    &&& transitions@[m].clock_mapping == journal.clock_mappings@[self.revision_transitions + m]
                },
            decreases n - k,
        {
            transitions.push(RecordingRevisionTransition {
                configuration: journal.track_configurations[k].duplicate(),
                clock_mapping: journal.clock_mappings[k].duplicate(),
            });
            k = k + 1;
        }
        let mut coverage: Vec<SequenceCoverage> = Vec::new();
        let mut i: usize = 0;
        while i < journal.sequence_coverage.len()
            invariant
                i <= journal.sequence_coverage.len(),
                coverage@ == changed_coverage(self.sequence_coverage@, journal.sequence_coverage@.take(i as int)),
            decreases journal.sequence_coverage.len() - i,
        {
            proof {
                assert(journal.sequence_coverage@.take(i + 1).drop_last() == journal.sequence_coverage@.take(i as int));
                assert(journal.sequence_coverage@.take(i + 1).last() == journal.sequence_coverage@[i as int]);
            }
            if !coverage_unchanged(&self.sequence_coverage, &journal.sequence_coverage[i]) {
                coverage.push(journal.sequence_coverage[i].duplicate());
            }
            i = i + 1;
        }
        proof {
            assert(journal.sequence_coverage@.take(journal.sequence_coverage@.len() as int) == journal.sequence_coverage@);
        }
        JournalDelta {
            schema_version: CAPTURE_SCHEMA_VERSION,
            session_id: journal.session_id.duplicate(),
            tracks,
            revision_transitions: transitions,
            timeline_gap_start_index,
            timeline_gaps: duplicate_gaps(&journal.timeline_gaps, timeline_gap_start_index),
            sequence_coverage: coverage,
            gap_start_index,
            sequence_gaps: duplicate_sequence_gaps(&journal.sequence_gaps, gap_start_index),
            sequence_gap_overflow: journal.sequence_gap_overflow,
            sink_degraded: journal.sink_degraded,
        }
    }
}

/// The journal's tracks after inserting `t`, replacing a track of the same id.
pub open spec fn upsert_track(tracks: Seq<JournalTrack>, t: JournalTrack) -> Seq<JournalTrack> {
    match journal_track_index(tracks, t.track_id@) {
        Some(i) => tracks.update(i, t),
        None => tracks.push(t),
    }
}

pub open spec fn tracks_after(tracks: Seq<JournalTrack>, added: Seq<JournalTrack>) -> Seq<JournalTrack>
    decreases added.len(),
{
    if added.len() == 0 {
        tracks
    } else {
        tracks_after(upsert_track(tracks, added[0]), added.drop_first())
    }
}

/// The coverage after inserting `c`, replacing the entry of the same track.
pub open spec fn upsert_coverage(coverage: Seq<SequenceCoverage>, c: SequenceCoverage) -> Seq<SequenceCoverage> {
    match coverage_index(coverage, c.track_id@) {
        Some(i) => coverage.update(i, c),
        None => coverage.push(c),
    }
}

pub open spec fn coverage_after(coverage: Seq<SequenceCoverage>, added: Seq<SequenceCoverage>) -> Seq<SequenceCoverage>
    decreases added.len(),
{
    if added.len() == 0 {
        coverage
    } else {
        coverage_after(upsert_coverage(coverage, added[0]), added.drop_first())
    }
}

/// The configurations and mappings after replaying `ts` in order, or `None`
/// when one of them is refused.
pub open spec fn transitions_replayed(
    configs: Seq<TrackConfigurationRevision>,
    mappings: Seq<ClockMappingRevision>,
    ts: Seq<RecordingRevisionTransition>,
) -> Option<(Seq<TrackConfigurationRevision>, Seq<ClockMappingRevision>)>
    decreases ts.len(),
{
    if ts.len() == 0 {
        Some((configs, mappings))
    } else if transition_accepted_in(configs, mappings, ts[0].configuration, ts[0].clock_mapping) {
        transitions_replayed(configs.push(ts[0].configuration), mappings.push(ts[0].clock_mapping), ts.drop_first())
    } else {
        None
    }
}

/// Whether a delta record applies to the journal replayed so far.
pub open spec fn delta_applies(j: CaptureJournal, d: JournalDelta) -> bool {
    &&& d.schema_version == CAPTURE_SCHEMA_VERSION
    &&& d.session_id@ == j.session_id@
    &&& coverage_starts_at_zero(d.sequence_coverage@)
    &&& transitions_replayed(j.track_configurations@, j.clock_mappings@, d.revision_transitions@) is Some
    &&& d.timeline_gap_start_index <= j.timeline_gaps@.len()
    &&& d.gap_start_index == previous_index(j.sequence_gaps@.len() as int)
}

/// The journal after a delta record applied.
pub open spec fn delta_applied(old_j: CaptureJournal, d: JournalDelta, j: CaptureJournal) -> bool {
    &&& j.schema_version == old_j.schema_version
    &&& j.session_id == old_j.session_id
    &&& j.tracks@ == tracks_after(old_j.tracks@, d.tracks@)
    &&& transitions_replayed(old_j.track_configurations@, old_j.clock_mappings@, d.revision_transitions@)
        == Some((j.track_configurations@, j.clock_mappings@))
    &&& j.timeline_gaps@ == old_j.timeline_gaps@.take(d.timeline_gap_start_index as int) + d.timeline_gaps@
    &&& j.sequence_coverage@ == coverage_after(old_j.sequence_coverage@, d.sequence_coverage@)
    &&& j.sequence_gaps@ == old_j.sequence_gaps@.take(d.gap_start_index as int) + d.sequence_gaps@
    &&& j.sequence_gap_overflow == d.sequence_gap_overflow
    &&& j.sink_degraded == (old_j.sink_degraded || d.sink_degraded)
}

/// Applies a delta record to the journal replayed so far. On an error the
/// journal may be partly updated and is to be discarded.
pub fn apply_journal_delta(journal: &mut CaptureJournal, delta: JournalDelta) -> (r: Result<(), String>)
    ensures
        r is Ok <==> delta_applies(*old(journal), delta),
        r is Ok ==> delta_applied(*old(journal), delta, *final(journal)),
{
    if delta.schema_version != CAPTURE_SCHEMA_VERSION || !delta.session_id.same_as(&journal.session_id) {
        return Err(String::from_str("recording journal delta does not match the session"));
    }
    validate_initial_sequence_coverage(&delta.sequence_coverage)?;
    let ghost d = delta;
    let JournalDelta {
        schema_version: _,
        session_id: _,
        tracks: mut added_tracks,
        revision_transitions: mut transitions,
        timeline_gap_start_index,
        timeline_gaps: mut new_timeline_gaps,
        sequence_coverage: mut new_coverage,
        gap_start_index,
        sequence_gaps: mut new_sequence_gaps,
        sequence_gap_overflow,
        sink_degraded,
    } = delta;
    let ghost start = *journal;
    assert(start == *old(journal));
    assert(d == delta);
    while added_tracks.len() > 0
        invariant
            tracks_after(journal.tracks@, added_tracks@) == tracks_after(start.tracks@, d.tracks@),
            journal.schema_version == start.schema_version,
            journal.session_id == start.session_id,
            journal.track_configurations == start.track_configurations,
            journal.clock_mappings == start.clock_mappings,
            journal.timeline_gaps == start.timeline_gaps,
            journal.sequence_coverage == start.sequence_coverage,
            journal.sequence_gaps == start.sequence_gaps,
            journal.sequence_gap_overflow == start.sequence_gap_overflow,
            journal.sink_degraded == start.sink_degraded,
        decreases added_tracks.len(),
    {
        let ghost before = added_tracks@;
        let track = added_tracks.remove(0);
        proof {
            assert(added_tracks@ == before.drop_first());
        }
        match find_journal_track(&journal.tracks, track.track_id.as_str()) {
            Some(i) => {
                journal.tracks.set(i, track);
            },
            None => {
                journal.tracks.push(track);
            },
        }
    }
    let ghost after_tracks = *journal;
    while transitions.len() > 0
        invariant
            transitions_replayed(journal.track_configurations@, journal.clock_mappings@, transitions@)
                == transitions_replayed(start.track_configurations@, start.clock_mappings@, d.revision_transitions@),
            start == *old(journal),
            d == delta,
            journal.schema_version == start.schema_version,
            journal.session_id == start.session_id,
            journal.tracks == after_tracks.tracks,
            journal.timeline_gaps == start.timeline_gaps,
            journal.sequence_coverage == start.sequence_coverage,
            journal.sequence_gaps == start.sequence_gaps,
            journal.sequence_gap_overflow == start.sequence_gap_overflow,
            journal.sink_degraded == start.sink_degraded,
        decreases transitions.len(),
    {
        let ghost before = transitions@;
        let transition = transitions.remove(0);
        proof {
            assert(transitions@ == before.drop_first());
        }
        let ghost configs_before = journal.track_configurations@;
        let ghost mappings_before = journal.clock_mappings@;
        match journal.observe_revision_transition(transition) {
            Ok(()) => {},
            Err(e) => {
                proof {
                    assert(before[0] == transition);
                    assert(!transition_accepted_in(configs_before, mappings_before, before[0].configuration, before[0].clock_mapping));
                    assert(transitions_replayed(configs_before, mappings_before, before) is None);
                    assert(transitions_replayed(start.track_configurations@, start.clock_mappings@, d.revision_transitions@) is None);
                    assert(!delta_applies(start, d));
                }
                return Err(e);
            },
        }
    }
    if timeline_gap_start_index > journal.timeline_gaps.len() {
        return Err(String::from_str("recording journal timeline-gap delta is out of order"));
    }
    journal.timeline_gaps.truncate(timeline_gap_start_index);
    journal.timeline_gaps.append(&mut new_timeline_gaps);
    let ghost after_gaps = *journal;
    while new_coverage.len() > 0
        invariant
            coverage_after(journal.sequence_coverage@, new_coverage@) == coverage_after(start.sequence_coverage@, d.sequence_coverage@),
            journal.schema_version == start.schema_version,
            journal.session_id == start.session_id,
            journal.tracks == after_gaps.tracks,
            journal.track_configurations == after_gaps.track_configurations,
            journal.clock_mappings == after_gaps.clock_mappings,
            journal.timeline_gaps == after_gaps.timeline_gaps,
            journal.sequence_gaps == start.sequence_gaps,
            journal.sequence_gap_overflow == start.sequence_gap_overflow,
            journal.sink_degraded == start.sink_degraded,
        decreases new_coverage.len(),
    {
        let ghost before = new_coverage@;
        let coverage = new_coverage.remove(0);
        proof {
            assert(new_coverage@ == before.drop_first());
        }
        match find_coverage(&journal.sequence_coverage, coverage.track_id.as_str()) {
            Some(i) => {
                journal.sequence_coverage.set(i, coverage);
            },
            None => {
                journal.sequence_coverage.push(coverage);
            },
        }
    }
    if gap_start_index != journal.sequence_gaps.len().saturating_sub(1) {
        return Err(String::from_str("recording journal gap delta is out of order"));
    }
    journal.sequence_gaps.truncate(gap_start_index);
    journal.sequence_gaps.append(&mut new_sequence_gaps);
    journal.sequence_gap_overflow = sequence_gap_overflow;
    journal.sink_degraded = journal.sink_degraded || sink_degraded;
    Ok(())
}

/// A line without the carriage return of a `\r\n` ending.
pub open spec fn strip_cr(line: Seq<char>) -> Seq<char> {
    if line.len() > 0 && line.last() == '\r' { line.drop_last() } else { line }
}

/// The lines of a text as `str::lines` gives them: split at `\n`, a `\r`
/// before the `\n` removed, no empty line after a final line ending, and a
/// final `\r` without `\n` kept.
pub open spec fn text_lines(s: Seq<char>) -> Seq<Seq<char>> {
    let pieces = split_on(s, '\n');
    if s.len() == 0 {
        Seq::empty()
    } else if s.last() == '\n' {
        pieces.drop_last().map_values(|l: Seq<char>| strip_cr(l))
    } else {
        pieces.drop_last().map_values(|l: Seq<char>| strip_cr(l)).push(pieces.last())
    }
}

/// Splits the append log into lines.
pub fn journal_lines(text: &str) -> (lines: Vec<String>)
    ensures
        lines@.len() == text_lines(text@).len(),
        forall|i: int| 0 <= i < lines@.len() ==> (#[trigger] lines@[i])@ == text_lines(text@)[i],
{
    let chars = chars_of(text);
    let mut lines: Vec<String> = Vec::new();
    if chars.len() == 0 {
        return lines;
    }
    let pieces = split_chars(&chars, '\n');
    proof {
        lemma_split_on_nonempty(text@, '\n');
    }
    let ends_with_newline = chars[chars.len() - 1] == '\n';
    let full = pieces.len() - 1;
    let mut i: usize = 0;
    while i < full
        invariant
            full + 1 == pieces.len(),
            chars@ == text@,
            chars@.len() > 0,
            i <= full,
            crate::text::char_vecs_match(pieces@, split_on(text@, '\n')),
            lines@.len() == i,
            forall|k: int| 0 <= k < i ==> (#[trigger] lines@[k])@ == strip_cr(split_on(text@, '\n')[k]),
        decreases full - i,
    {
        let piece = &pieces[i];
        let n = piece.len();
        let line = if n > 0 && piece[n - 1] == '\r' {
            let kept = crate::text::sub_chars(piece, 0, n - 1);
            proof {
                assert(kept@ =~= piece@.drop_last());
            }
            string_from_chars(kept.as_slice())
        } else {
            string_from_chars(piece.as_slice())
        };
        lines.push(line);
        i = i + 1;
    }
    if !ends_with_newline {
        lines.push(string_from_chars(pieces[full].as_slice()));
    }
    proof {
        let p = split_on(text@, '\n');
        if ends_with_newline {
            assert forall|k: int| 0 <= k < lines@.len() implies (#[trigger] lines@[k])@ == text_lines(text@)[k] by {
                assert(text_lines(text@)[k] == strip_cr(p.drop_last()[k]));
            }
        } else {
            assert forall|k: int| 0 <= k < lines@.len() implies (#[trigger] lines@[k])@ == text_lines(text@)[k] by {
                if k < full {
                    assert(text_lines(text@)[k] == strip_cr(p.drop_last()[k]));
                }
            }
        }
    }
    lines
}

/// One line of the append log, with what parsing it as a record gave.
#[derive(Debug)]
pub struct JournalLine {
    pub text: String,
    pub record: Result<JournalRecord, String>,
}

/// Replaying lines from `k` with the journal recovered so far; `out` is the
/// journal the replay ends with, `None` when it fails. A line that does not
/// parse ends the replay quietly only when it is the last line and the log
/// does not end with a line ending (a torn tail).
pub open spec fn replays_to(
    lines: Seq<JournalLine>,
    ends_with_newline: bool,
    k: int,
    state: Option<CaptureJournal>,
    out: Option<CaptureJournal>,
) -> bool
    decreases lines.len() - k,
{
    if k >= lines.len() || k < 0 {
        out == state
    } else if lines[k].text@.len() == 0 {
        replays_to(lines, ends_with_newline, k + 1, state, out)
    } else {
        match lines[k].record {
            Err(_) => if k + 1 == lines.len() && !ends_with_newline { out == state } else { out is None },
            Ok(JournalRecord::Header(h)) => match state {
                Some(_) => out is None,
                None => replays_to(lines, ends_with_newline, k + 1, Some(h), out),
            },
            Ok(JournalRecord::Delta(d)) => match state {
                None => out is None,
                Some(j) => if !delta_applies(j, d) {
                    out is None
                } else {
                    exists|j2: CaptureJournal| delta_applied(j, d, j2) && replays_to(lines, ends_with_newline, k + 1, Some(j2), out)
                },
            },
            Ok(JournalRecord::Overflow { session_id, reason: _ }) => match state {
                None => out is None,
                Some(j) => if session_id@ != j.session_id@ {
                    out is None
                } else {
                    replays_to(lines, ends_with_newline, k + 1, state, out)
                },
            },
        }
    }
}

/// A recovered journal that may be used: valid timeline metadata and
/// coverage from sequence zero.
pub open spec fn recovered_journal_valid(j: CaptureJournal) -> bool {
    &&& timeline_metadata_valid(j.session_id@, j.tracks@, j.track_configurations@, j.clock_mappings@, j.timeline_gaps@)
    &&& coverage_starts_at_zero(j.sequence_coverage@)
}

/// Two journals hold the same values in every field.
pub open spec fn journal_views_equal(a: CaptureJournal, b: CaptureJournal) -> bool {
    &&& a.schema_version == b.schema_version
    &&& a.session_id == b.session_id
    &&& a.tracks@ == b.tracks@
    &&& a.track_configurations@ == b.track_configurations@
    &&& a.clock_mappings@ == b.clock_mappings@
    &&& a.timeline_gaps@ == b.timeline_gaps@
    &&& a.sequence_coverage@ == b.sequence_coverage@
    &&& a.sequence_gaps@ == b.sequence_gaps@
    &&& a.sequence_gap_overflow == b.sequence_gap_overflow
    &&& a.sink_degraded == b.sink_degraded
}

/// Both absent, or both present with the same values.
pub open spec fn states_views_equal(a: Option<CaptureJournal>, b: Option<CaptureJournal>) -> bool {
    match (a, b) {
        (None, None) => true,
        (Some(x), Some(y)) => journal_views_equal(x, y),
        _ => false,
    }
}

/// A delta record applied to one journal gives journals with the same
/// values.
proof fn lemma_delta_applied_unique(j: CaptureJournal, d: JournalDelta, x: CaptureJournal, y: CaptureJournal)
    requires
        delta_applied(j, d, x),
        delta_applied(j, d, y),
    ensures
        journal_views_equal(x, y),
{
}

/// Replaying from states with the same values ends in journals with the
/// same values.
proof fn lemma_replay_congruent(
    lines: Seq<JournalLine>,
    ends_with_newline: bool,
    k: int,
    a: Option<CaptureJournal>,
    b: Option<CaptureJournal>,
    out: CaptureJournal,
)
    requires
        0 <= k,
        states_views_equal(a, b),
        replays_to(lines, ends_with_newline, k, a, Some(out)),
    ensures
        exists|out2: CaptureJournal| replays_to(lines, ends_with_newline, k, b, Some(out2)) && journal_views_equal(out, out2),
    decreases lines.len() - k,
{
    if k >= lines.len() {
        let out2 = b->0;
        assert(replays_to(lines, ends_with_newline, k, b, Some(out2)));
    } else if lines[k].text@.len() == 0 {
        lemma_replay_congruent(lines, ends_with_newline, k + 1, a, b, out);
        let out2 = choose|out2: CaptureJournal| replays_to(lines, ends_with_newline, k + 1, b, Some(out2)) && journal_views_equal(out, out2);
        assert(replays_to(lines, ends_with_newline, k, b, Some(out2)));
    } else {
        match lines[k].record {
            Err(_) => {
                let out2 = b->0;
                assert(replays_to(lines, ends_with_newline, k, b, Some(out2)));
            },
            Ok(JournalRecord::Header(h)) => {
                lemma_replay_congruent(lines, ends_with_newline, k + 1, Some(h), Some(h), out);
                let out2 = choose|out2: CaptureJournal| replays_to(lines, ends_with_newline, k + 1, Some(h), Some(out2)) && journal_views_equal(out, out2);
                assert(replays_to(lines, ends_with_newline, k, b, Some(out2)));
            },
            Ok(JournalRecord::Delta(d)) => {
                let ja = a->0;
                let jb = b->0;
                let j2 = choose|j2: CaptureJournal| delta_applied(ja, d, j2) && replays_to(lines, ends_with_newline, k + 1, Some(j2), Some(out));
                assert(delta_applied(jb, d, j2));
                assert(replays_to(lines, ends_with_newline, k, b, Some(out)));
                assert(journal_views_equal(out, out));
            },
            Ok(JournalRecord::Overflow { session_id, reason: _ }) => {
                lemma_replay_congruent(lines, ends_with_newline, k + 1, a, b, out);
                let out2 = choose|out2: CaptureJournal| replays_to(lines, ends_with_newline, k + 1, b, Some(out2)) && journal_views_equal(out, out2);
                assert(replays_to(lines, ends_with_newline, k, b, Some(out2)));
            },
        }
    }
}

fn validate_recovered(journal: &CaptureJournal) -> (r: Result<(), String>)
    ensures
        r is Ok <==> recovered_journal_valid(*journal),
{
    validate_timeline_control_metadata(
        &journal.session_id,
        &journal.tracks,
        &journal.track_configurations,
        &journal.clock_mappings,
        &journal.timeline_gaps,
    )?;
    validate_initial_sequence_coverage(&journal.sequence_coverage)
}

/// Whether some replay of the lines, from their start, ends in a journal
/// that may be used.
#[verifier::opaque]
pub open spec fn recoverable(lines: Seq<JournalLine>, ends_with_newline: bool) -> bool {
    exists|out: CaptureJournal| replays_to(lines, ends_with_newline, 0, None, Some(out)) && recovered_journal_valid(out)
}

/// Every replay from the start that ends in a journal is matched, value for
/// value, by one from line `k` and the state `state`.
#[verifier::opaque]
pub open spec fn replays_through(
    lines: Seq<JournalLine>,
    ends_with_newline: bool,
    k: int,
    state: Option<CaptureJournal>,
) -> bool {
    forall|out: CaptureJournal| #[trigger] replays_to(lines, ends_with_newline, 0, None, Some(out)) ==> exists|out2: CaptureJournal|
        replays_to(lines, ends_with_newline, k, state, Some(out2)) && journal_views_equal(out, out2)
}

/// No replay from line `k` and `state` ends in a journal, so none from the
/// start does either.
proof fn lemma_no_replay(lines: Seq<JournalLine>, ends_with_newline: bool, k: int, state: Option<CaptureJournal>)
    requires
        replays_through(lines, ends_with_newline, k, state),
        forall|out2: CaptureJournal| !replays_to(lines, ends_with_newline, k, state, Some(out2)),
    ensures
        !recoverable(lines, ends_with_newline),
{
    reveal(replays_through);
    reveal(recoverable);
    if recoverable(lines, ends_with_newline) {
        let out = choose|out: CaptureJournal| replays_to(lines, ends_with_newline, 0, None, Some(out)) && recovered_journal_valid(out);
        assert(replays_to(lines, ends_with_newline, 0, None, Some(out)));
    }
}

/// A line of no text changes nothing.
proof fn lemma_through_empty(lines: Seq<JournalLine>, e: bool, k: int, state: Option<CaptureJournal>)
    requires
        0 <= k < lines.len(),
        lines[k].text@.len() == 0,
        replays_through(lines, e, k, state),
    ensures
        replays_through(lines, e, k + 1, state),
{
    reveal(replays_through);
    reveal(recoverable);
    assert forall|out: CaptureJournal| #[trigger] replays_to(lines, e, 0, None, Some(out)) implies exists|out2: CaptureJournal|
        replays_to(lines, e, k + 1, state, Some(out2)) && journal_views_equal(out, out2) by {
        let out2 = choose|out2: CaptureJournal| replays_to(lines, e, k, state, Some(out2)) && journal_views_equal(out, out2);
        assert(replays_to(lines, e, k + 1, state, Some(out2)));
    }
}

/// A torn last line ends the replay where it stands.
proof fn lemma_through_torn(lines: Seq<JournalLine>, e: bool, k: int, state: Option<CaptureJournal>)
    requires
        k + 1 == lines.len(),
        0 <= k,
        !e,
        lines[k].text@.len() != 0,
        lines[k].record is Err,
        replays_through(lines, e, k, state),
    ensures
        replays_through(lines, e, k + 1, state),
        forall|out: CaptureJournal| replays_to(lines, e, k + 1, state, Some(out)) ==> replays_to(lines, e, k, state, Some(out)),
{
    reveal(replays_through);
    reveal(recoverable);
    assert forall|out: CaptureJournal| #[trigger] replays_to(lines, e, 0, None, Some(out)) implies exists|out2: CaptureJournal|
        replays_to(lines, e, k + 1, state, Some(out2)) && journal_views_equal(out, out2) by {
        let out2 = choose|out2: CaptureJournal| replays_to(lines, e, k, state, Some(out2)) && journal_views_equal(out, out2);
        assert(replays_to(lines, e, k + 1, state, Some(out2)));
    }
}

/// The header starts the journal.
proof fn lemma_through_header(lines: Seq<JournalLine>, e: bool, k: int, h: CaptureJournal)
    requires
        0 <= k < lines.len(),
        lines[k].text@.len() != 0,
        lines[k].record == Ok::<JournalRecord, String>(JournalRecord::Header(h)),
        replays_through(lines, e, k, None),
    ensures
        replays_through(lines, e, k + 1, Some(h)),
{
    reveal(replays_through);
    reveal(recoverable);
    assert forall|out: CaptureJournal| #[trigger] replays_to(lines, e, 0, None, Some(out)) implies exists|out2: CaptureJournal|
        replays_to(lines, e, k + 1, Some(h), Some(out2)) && journal_views_equal(out, out2) by {
        let out2 = choose|out2: CaptureJournal| replays_to(lines, e, k, None, Some(out2)) && journal_views_equal(out, out2);
        assert(replays_to(lines, e, k + 1, Some(h), Some(out2)));
    }
}

/// An overflow record of the journal's session changes nothing.
proof fn lemma_through_overflow(lines: Seq<JournalLine>, e: bool, k: int, j: CaptureJournal)
    requires
        0 <= k < lines.len(),
        lines[k].text@.len() != 0,
        lines[k].record matches Ok(JournalRecord::Overflow { session_id, reason: _ }) && session_id@ == j.session_id@,
        replays_through(lines, e, k, Some(j)),
    ensures
        replays_through(lines, e, k + 1, Some(j)),
{
    reveal(replays_through);
    reveal(recoverable);
    assert forall|out: CaptureJournal| #[trigger] replays_to(lines, e, 0, None, Some(out)) implies exists|out2: CaptureJournal|
        replays_to(lines, e, k + 1, Some(j), Some(out2)) && journal_views_equal(out, out2) by {
        let out2 = choose|out2: CaptureJournal| replays_to(lines, e, k, Some(j), Some(out2)) && journal_views_equal(out, out2);
        assert(replays_to(lines, e, k + 1, Some(j), Some(out2)));
    }
}

/// A delta record that applies moves the journal on.
proof fn lemma_through_delta(
    lines: Seq<JournalLine>,
    e: bool,
    k: int,
    before: CaptureJournal,
    d: JournalDelta,
    recovered: CaptureJournal,
)
    requires
        0 <= k < lines.len(),
        lines[k].text@.len() != 0,
        lines[k].record == Ok::<JournalRecord, String>(JournalRecord::Delta(d)),
        delta_applies(before, d),
        delta_applied(before, d, recovered),
        replays_through(lines, e, k, Some(before)),
    ensures
        replays_through(lines, e, k + 1, Some(recovered)),
        forall|out: CaptureJournal| replays_to(lines, e, k + 1, Some(recovered), Some(out))
            ==> replays_to(lines, e, k, Some(before), Some(out)),
{
    reveal(replays_through);
    reveal(recoverable);
    assert forall|out: CaptureJournal| #[trigger] replays_to(lines, e, 0, None, Some(out)) implies exists|out3: CaptureJournal|
        replays_to(lines, e, k + 1, Some(recovered), Some(out3)) && journal_views_equal(out, out3) by {
        let out2 = choose|out2: CaptureJournal| replays_to(lines, e, k, Some(before), Some(out2)) && journal_views_equal(out, out2);
        let j2 = choose|j2: CaptureJournal| delta_applied(before, d, j2) && replays_to(lines, e, k + 1, Some(j2), Some(out2));
        lemma_delta_applied_unique(before, d, j2, recovered);
        lemma_replay_congruent(lines, e, k + 1, Some(j2), Some(recovered), out2);
        let out3 = choose|out3: CaptureJournal| replays_to(lines, e, k + 1, Some(recovered), Some(out3)) && journal_views_equal(out2, out3);
        assert(journal_views_equal(out, out3));
    }
}

/// A line on which the replay fails leaves nothing to recover.
proof fn lemma_line_fails(lines: Seq<JournalLine>, e: bool, k: int, state: Option<CaptureJournal>)
    requires
        0 <= k < lines.len(),
        lines[k].text@.len() != 0,
        replays_through(lines, e, k, state),
        match lines[k].record {
            Err(_) => !(k + 1 == lines.len() && !e),
            Ok(JournalRecord::Header(_)) => state is Some,
            Ok(JournalRecord::Delta(d)) => state is None || !delta_applies(state->0, d),
            Ok(JournalRecord::Overflow { session_id, reason: _ }) => state is None || session_id@ != state->0.session_id@,
        },
    ensures
        !recoverable(lines, e),
{
    reveal(replays_through);
    assert forall|out2: CaptureJournal| !replays_to(lines, e, k, state, Some(out2)) by {}
    lemma_no_replay(lines, e, k, state);
}

/// Before any line, every replay is matched by itself.
proof fn lemma_through_start(lines: Seq<JournalLine>, e: bool)
    ensures
        replays_through(lines, e, 0, None),
{
    reveal(replays_through);
    assert forall|out: CaptureJournal| #[trigger] replays_to(lines, e, 0, None, Some(out)) implies exists|out2: CaptureJournal|
        replays_to(lines, e, 0, None, Some(out2)) && journal_views_equal(out, out2) by {
        assert(journal_views_equal(out, out));
    }
}

/// After the last line, the replay ends in the journal recovered so far, so
/// the lines are recoverable exactly when it is valid.
proof fn lemma_through_end(lines: Seq<JournalLine>, e: bool, state: Option<CaptureJournal>)
    requires
        replays_through(lines, e, lines.len() as int, state),
        forall|out: CaptureJournal| replays_to(lines, e, lines.len() as int, state, Some(out))
            ==> replays_to(lines, e, 0, None, Some(out)),
    ensures
        state is None ==> !recoverable(lines, e),
        state matches Some(j) ==> (recoverable(lines, e) <==> recovered_journal_valid(j)),
        state matches Some(j) ==> replays_to(lines, e, 0, None, Some(j)),
{
    reveal(replays_through);
    reveal(recoverable);
    let n = lines.len() as int;
    if recoverable(lines, e) {
        let out = choose|out: CaptureJournal| replays_to(lines, e, 0, None, Some(out)) && recovered_journal_valid(out);
        let out2 = choose|out2: CaptureJournal| replays_to(lines, e, n, state, Some(out2)) && journal_views_equal(out, out2);
        assert(replays_to(lines, e, n, state, Some(out2)));
    }
    if state is Some {
        assert(replays_to(lines, e, n, state, state));
    }
}

/// Recovers a journal from its append log: a whole-file snapshot when the
/// text parsed as one, else the header and the deltas after it, stopping
/// quietly at a torn last line; either way it must validate. From lines it
/// succeeds exactly when some replay of them ends in a valid journal.
pub fn recover_journal(
    snapshot: Option<CaptureJournal>,
    lines: Vec<JournalLine>,
    ends_with_newline: bool,
) -> (r: Result<CaptureJournal, String>)
    ensures
        snapshot is Some ==> (r is Ok <==> recovered_journal_valid(snapshot->0))
            && (r matches Ok(j) ==> j == snapshot->0),
        snapshot is None ==> (r is Ok <==> recoverable(lines@, ends_with_newline)),
        snapshot is None ==> (r matches Ok(j) ==> recovered_journal_valid(j)
            && replays_to(lines@, ends_with_newline, 0, None, Some(j))),
{
    match snapshot {
        Some(journal) => {
            validate_recovered(&journal)?;
            return Ok(journal);
        },
        None => {},
    }
    let ghost all = lines@;
    let mut remaining = lines;
    let mut journal: Option<CaptureJournal> = None;
    let ghost mut k: int = 0;
    let total = remaining.len();
    let mut index: usize = 0;
    proof {
        lemma_through_start(all, ends_with_newline);
    }
    while remaining.len() > 0
        invariant
            snapshot is None,
            all == lines@,
            0 <= k <= all.len(),
            total == all.len(),
            index == k,
            remaining@ == all.subrange(k, all.len() as int),
            forall|out: CaptureJournal| replays_to(all, ends_with_newline, k, journal, Some(out))
                ==> replays_to(all, ends_with_newline, 0, None, Some(out)),
            replays_through(all, ends_with_newline, k, journal),
        ensures
            k == all.len(),
            forall|out: CaptureJournal| replays_to(all, ends_with_newline, k, journal, Some(out))
                ==> replays_to(all, ends_with_newline, 0, None, Some(out)),
            replays_through(all, ends_with_newline, k, journal),
        decreases remaining.len(),
    {
        let line = remaining.remove(0);
        proof {
            assert(line == all[k]);
        }
        let is_last = index + 1 == total;
        if line.text.as_str().unicode_len() == 0 {
            proof {
                lemma_through_empty(all, ends_with_newline, k, journal);
                k = k + 1;
                assert(remaining@ =~= all.subrange(k, all.len() as int));
            }
            index = index + 1;
            continue;
        }
        match line.record {
            Err(error) => {
                if is_last && !ends_with_newline {
                    proof {
                        lemma_through_torn(all, ends_with_newline, k, journal);
                        k = k + 1;
                        assert(remaining@ =~= all.subrange(k, all.len() as int));
                    }
                    index = index + 1;
                    break;
                }
                proof {
                    lemma_line_fails(all, ends_with_newline, k, journal);
                }
                let mut message = String::from_str("Failed to parse recording journal: ");
                message.append(error.as_str());
                return Err(message);
            },
            Ok(JournalRecord::Header(header)) => {
                if journal.is_some() {
                    proof {
                        lemma_line_fails(all, ends_with_newline, k, journal);
                    }
                    return Err(String::from_str("recording journal has multiple headers"));
                }
                proof {
                    lemma_through_header(all, ends_with_newline, k, header);
                }
                journal = Some(header);
            },
            Ok(JournalRecord::Delta(delta)) => {
                let mut recovered = match journal {
                    Some(recovered) => recovered,
                    None => {
                        proof {
                            lemma_line_fails(all, ends_with_newline, k, journal);
                        }
                        return Err(String::from_str("recording journal delta has no header"));
                    },
                };
                let ghost before = recovered;
                let applied = apply_journal_delta(&mut recovered, delta);
                if applied.is_err() {
                    proof {
                        lemma_line_fails(all, ends_with_newline, k, journal);
                    }
                    return Err(applied.unwrap_err());
                }
                proof {
                    lemma_through_delta(all, ends_with_newline, k, before, delta, recovered);
                }
                journal = Some(recovered);
            },
            Ok(JournalRecord::Overflow { session_id, reason: _ }) => {
                match &journal {
                    Some(recovered) => {
                        if !recovered.session_id.same_as(&session_id) {
                            proof {
                                lemma_line_fails(all, ends_with_newline, k, journal);
                            }
                            return Err(String::from_str("recording journal overflow session does not match"));
                        }
                        proof {
                            lemma_through_overflow(all, ends_with_newline, k, *recovered);
                        }
                    },
                    None => {
                        proof {
                            lemma_line_fails(all, ends_with_newline, k, journal);
                        }
                        return Err(String::from_str("recording journal overflow has no header"));
                    },
                }
            },
        }
        proof {
            k = k + 1;
            assert(remaining@ =~= all.subrange(k, all.len() as int));
        }
        index = index + 1;
    }
    proof {
        lemma_through_end(all, ends_with_newline, journal);
    }
    let journal = match journal {
        Some(journal) => journal,
        None => return Err(String::from_str("recording journal has no valid header")),
    };
    validate_recovered(&journal)?;
    Ok(journal)
}

pub proof fn lemma_tracks_after_push(ts: Seq<JournalTrack>, added: Seq<JournalTrack>, x: JournalTrack)
    ensures
        tracks_after(ts, added.push(x)) == upsert_track(tracks_after(ts, added), x),
    decreases added.len(),
{
    let s = added.push(x);
    if added.len() == 0 {
        assert(s[0] == x);
        assert(s.drop_first() =~= Seq::<JournalTrack>::empty());
        assert(tracks_after(ts, s) == tracks_after(upsert_track(ts, x), s.drop_first()));
        assert(tracks_after(ts, added) == ts);
    } else {
        assert(s[0] == added[0]);
        assert(s.drop_first() =~= added.drop_first().push(x));
        lemma_tracks_after_push(upsert_track(ts, added[0]), added.drop_first(), x);
        assert(tracks_after(ts, s) == tracks_after(upsert_track(ts, added[0]), s.drop_first()));
        assert(tracks_after(ts, added) == tracks_after(upsert_track(ts, added[0]), added.drop_first()));
    }
}

pub proof fn lemma_coverage_after_push(cs: Seq<SequenceCoverage>, added: Seq<SequenceCoverage>, x: SequenceCoverage)
    ensures
        coverage_after(cs, added.push(x)) == upsert_coverage(coverage_after(cs, added), x),
    decreases added.len(),
{
    let s = added.push(x);
    if added.len() == 0 {
        assert(s[0] == x);
        assert(s.drop_first() =~= Seq::<SequenceCoverage>::empty());
        assert(coverage_after(cs, s) == coverage_after(upsert_coverage(cs, x), s.drop_first()));
        assert(coverage_after(cs, added) == cs);
    } else {
        assert(s[0] == added[0]);
        assert(s.drop_first() =~= added.drop_first().push(x));
        lemma_coverage_after_push(upsert_coverage(cs, added[0]), added.drop_first(), x);
        assert(coverage_after(cs, s) == coverage_after(upsert_coverage(cs, added[0]), s.drop_first()));
        assert(coverage_after(cs, added) == coverage_after(upsert_coverage(cs, added[0]), added.drop_first()));
    }
}


proof fn lemma_torn_tail_replays_as_prefix(
    lines: Seq<JournalLine>,
    torn: JournalLine,
    k: int,
    state: Option<CaptureJournal>,
    out: Option<CaptureJournal>,
)
    requires
        0 <= k <= lines.len(),
        torn.text@.len() != 0,
        torn.record is Err,
    ensures
        replays_to(lines.push(torn), false, k, state, out) == replays_to(lines, true, k, state, out),
    decreases lines.len() - k,
{
    let all = lines.push(torn);
    if k < lines.len() {
        assert(all[k] == lines[k]);
        if lines[k].text@.len() == 0 {
            lemma_torn_tail_replays_as_prefix(lines, torn, k + 1, state, out);
        } else {
            match lines[k].record {
                Ok(JournalRecord::Header(h)) => {
                    lemma_torn_tail_replays_as_prefix(lines, torn, k + 1, Some(h), out);
                },
                Ok(JournalRecord::Delta(d)) => {
                    assert forall|j2: CaptureJournal| replays_to(all, false, k + 1, Some(j2), out) == replays_to(
                        lines,
                        true,
                        k + 1,
                        Some(j2),
                        out,
                    ) by {
                        lemma_torn_tail_replays_as_prefix(lines, torn, k + 1, Some(j2), out);
                    }
                },
                Ok(JournalRecord::Overflow { session_id: _, reason: _ }) => {
                    lemma_torn_tail_replays_as_prefix(lines, torn, k + 1, state, out);
                },
                Err(_) => {},
            }
        }
    } else {
        assert(all[k] == torn);
    }
}

/// A torn tail is ignored: a log whose last line is unterminated and does
/// not parse replays, and recovers, exactly as the complete lines before
/// that line do.
pub proof fn law_torn_tail_recovers_the_prefix(lines: Seq<JournalLine>, torn: JournalLine, out: Option<CaptureJournal>)
    requires
        torn.text@.len() != 0,
        torn.record is Err,
    ensures
        replays_to(lines.push(torn), false, 0, None, out) == replays_to(lines, true, 0, None, out),
        recoverable(lines.push(torn), false) == recoverable(lines, true),
{
    lemma_torn_tail_replays_as_prefix(lines, torn, 0, None, out);
    reveal(recoverable);
    assert forall|j: CaptureJournal| replays_to(lines.push(torn), false, 0, None, Some(j)) == replays_to(
        lines,
        true,
        0,
        None,
        Some(j),
    ) by {
        lemma_torn_tail_replays_as_prefix(lines, torn, 0, None, Some(j));
    }
}

} // verus!
