//! The capture journal: what a recording has observed so far (tracks, frame
//! sequence coverage, revision transitions and timeline gaps), kept bounded so
//! it can be persisted and replayed after a crash.

use vstd::prelude::*;
use crate::clock::{ClockMappingRevision, RecordingRevisionTransition};
use crate::frame::{AudioGap, TrackConfigurationRevision, gap_end_ms};
use crate::session::SessionId;
use crate::text::same_text;

verus! {

/// Version of the journal, sidecar and commit formats.
pub const CAPTURE_SCHEMA_VERSION: u16 = 1;
/// Bound on configuration, clock-mapping and timeline-gap events per recording.
pub const MAX_TIMELINE_CONTROL_EVENTS: usize = 1024;
/// Bound on individually kept sequence gaps; later ones are only counted.
pub const MAX_SEQUENCE_GAP_DETAILS: usize = 128;

/// The first index in `[from, to)` where `p` holds.
pub open spec fn first_index_from(from: int, to: int, p: spec_fn(int) -> bool) -> Option<int>
    decreases to - from,
{
    if from >= to {
        None
    } else if p(from) {
        Some(from)
    } else {
        first_index_from(from + 1, to, p)
    }
}

/// The last index below `to` where `p` holds.
pub open spec fn last_index_before(to: int, p: spec_fn(int) -> bool) -> Option<int>
    decreases to,
{
    if to <= 0 {
        None
    } else if p(to - 1) {
        Some(to - 1)
    } else {
        last_index_before(to - 1, p)
    }
}

pub proof fn lemma_first_index_from(from: int, to: int, p: spec_fn(int) -> bool)
    ensures
        first_index_from(from, to, p) matches Some(i) ==> from <= i < to && p(i)
            && forall|j: int| from <= j < i ==> !#[trigger] p(j),
        first_index_from(from, to, p) is None ==> forall|j: int| from <= j < to ==> !#[trigger] p(j),
    decreases to - from,
{
    if from < to {
        lemma_first_index_from(from + 1, to, p);
    }
}

pub proof fn lemma_last_index_before(to: int, p: spec_fn(int) -> bool)
    ensures
        last_index_before(to, p) matches Some(i) ==> 0 <= i < to && p(i)
            && forall|j: int| i < j < to ==> !#[trigger] p(j),
        last_index_before(to, p) is None ==> forall|j: int| 0 <= j < to ==> !#[trigger] p(j),
    decreases to,
{
    if to > 0 {
        lemma_last_index_before(to - 1, p);
    }
}

/// A track the recording has seen frames of.
#[derive(Debug, Clone, PartialEq, Eq)]
pub struct JournalTrack {
    pub track_id: String,
    pub sample_rate_hz: u32,
    pub channels: u16,
    pub first_start_ms: u64,
}

impl JournalTrack {
    pub fn duplicate(&self) -> (r: JournalTrack)
        ensures
            r == *self,
    {
        JournalTrack {
            track_id: self.track_id.clone(),
            sample_rate_hz: self.sample_rate_hz,
            channels: self.channels,
            first_start_ms: self.first_start_ms,
        }
    }
}

/// The frame sequences a track has delivered: from the first to the last seen.
#[derive(Debug, Clone, PartialEq, Eq)]
pub struct SequenceCoverage {
    pub track_id: String,
    pub first_sequence: u64,
    pub last_sequence: u64,
}

impl SequenceCoverage {
    pub fn duplicate(&self) -> (r: SequenceCoverage)
        ensures
            r == *self,
    {
        SequenceCoverage {
            track_id: self.track_id.clone(),
            first_sequence: self.first_sequence,
            last_sequence: self.last_sequence,
        }
    }
}

/// Frame sequences of a track that never reached the sink.
#[derive(Debug, Clone, PartialEq, Eq)]
pub struct SequenceGap {
    pub track_id: String,
    pub first_sequence: u64,
    pub dropped_frames: u64,
}

impl SequenceGap {
    pub fn duplicate(&self) -> (r: SequenceGap)
        ensures
            r == *self,
    {
        SequenceGap {
            track_id: self.track_id.clone(),
            first_sequence: self.first_sequence,
            dropped_frames: self.dropped_frames,
        }
    }
}

/// Sequence gaps beyond the kept details, only counted.
#[derive(Debug, Clone, Copy, PartialEq, Eq, Structural)]
pub struct SequenceGapOverflow {
    pub detail_capacity: u32,
    pub omitted_gap_count: u64,
    pub omitted_dropped_frames: u64,
}

/// Everything a recording has observed, in the order it was observed.
#[derive(Debug, Clone)]
pub struct CaptureJournal {
    pub schema_version: u16,
    pub session_id: SessionId,
    pub tracks: Vec<JournalTrack>,
    pub track_configurations: Vec<TrackConfigurationRevision>,
    pub clock_mappings: Vec<ClockMappingRevision>,
    pub timeline_gaps: Vec<AudioGap>,
    pub sequence_coverage: Vec<SequenceCoverage>,
    pub sequence_gaps: Vec<SequenceGap>,
    pub sequence_gap_overflow: Option<SequenceGapOverflow>,
    pub sink_degraded: bool,
}

/// `a + b`, or `u64::MAX` when it does not fit.
pub open spec fn saturating(a: int, b: int) -> u64 {
    if a + b > u64::MAX { u64::MAX } else { (a + b) as u64 }
}

/// The journal's fields other than the sequence-gap record and the
/// degradation flag are those of `other`.
pub open spec fn same_observations(j: CaptureJournal, other: CaptureJournal) -> bool {
    &&& j.schema_version == other.schema_version
    &&& j.session_id == other.session_id
    &&& j.tracks == other.tracks
    &&& j.track_configurations == other.track_configurations
    &&& j.clock_mappings == other.clock_mappings
    &&& j.timeline_gaps == other.timeline_gaps
    &&& j.sequence_coverage == other.sequence_coverage
}

/// Whether a new gap starting at `first_sequence` of `track` extends the last
/// recorded gap.
pub open spec fn extends_last_gap(gaps: Seq<SequenceGap>, track: Seq<char>, first_sequence: u64) -> bool {
    gaps.len() > 0 && gaps.last().track_id@ == track
        && gaps.last().first_sequence + gaps.last().dropped_frames == first_sequence
}

/// The overflow record after one more omitted gap of `dropped` frames.
pub open spec fn overflow_after(previous: Option<SequenceGapOverflow>, dropped: u64) -> SequenceGapOverflow {
    let base = match previous {
        Some(o) => o,
        None => SequenceGapOverflow {
            detail_capacity: MAX_SEQUENCE_GAP_DETAILS as u32,
            omitted_gap_count: 0,
            omitted_dropped_frames: 0,
        },
    };
    SequenceGapOverflow {
        detail_capacity: base.detail_capacity,
        omitted_gap_count: saturating(base.omitted_gap_count as int, 1),
        omitted_dropped_frames: saturating(base.omitted_dropped_frames as int, dropped as int),
    }
}

/// What recording the dropped sequences `[first_sequence, next_sequence)` of
/// `track` does to the kept gap details and the overflow count.
pub open spec fn gap_record_updated(
    old_gaps: Seq<SequenceGap>,
    old_overflow: Option<SequenceGapOverflow>,
    gaps: Seq<SequenceGap>,
    overflow: Option<SequenceGapOverflow>,
    track: Seq<char>,
    first_sequence: u64,
    next_sequence: u64,
) -> bool {
    let dropped = if next_sequence > first_sequence { (next_sequence - first_sequence) as u64 } else { 0u64 };
    if dropped == 0 {
        gaps == old_gaps && overflow == old_overflow
    } else if extends_last_gap(old_gaps, track, first_sequence) {
        let last = old_gaps.last();
        &&& gaps == old_gaps.update(
            old_gaps.len() - 1,
            SequenceGap {
                track_id: last.track_id,
                first_sequence: last.first_sequence,
                dropped_frames: saturating(last.dropped_frames as int, dropped as int),
            },
        )
        &&& overflow == old_overflow
    } else if old_gaps.len() < MAX_SEQUENCE_GAP_DETAILS {
        &&& gaps.len() == old_gaps.len() + 1
        &&& gaps.drop_last() == old_gaps
        &&& gaps.last().track_id@ == track
        &&& gaps.last().first_sequence == first_sequence
        &&& gaps.last().dropped_frames == dropped
        &&& overflow == old_overflow
    } else {
        &&& gaps == old_gaps
        &&& overflow == Some(overflow_after(old_overflow, dropped))
    }
}

/// What recording a sequence gap does to the whole journal.
pub open spec fn gap_recorded(old_j: CaptureJournal, j: CaptureJournal, track: Seq<char>, first_sequence: u64, next_sequence: u64) -> bool {
    &&& same_observations(j, old_j)
    &&& gap_record_updated(
        old_j.sequence_gaps@,
        old_j.sequence_gap_overflow,
        j.sequence_gaps@,
        j.sequence_gap_overflow,
        track,
        first_sequence,
        next_sequence,
    )
    &&& j.sink_degraded == (old_j.sink_degraded || next_sequence > first_sequence)
}

/// Index of the coverage entry of `track`, if any.
pub open spec fn coverage_index(coverage: Seq<SequenceCoverage>, track: Seq<char>) -> Option<int> {
    coverage_index_from(coverage, track, 0)
}

/// The first index from `k` of the coverage entry of `track`.
pub open spec fn coverage_index_from(coverage: Seq<SequenceCoverage>, track: Seq<char>, k: nat) -> Option<int>
    decreases coverage.len() - k,
{
    if k >= coverage.len() {
        None
    } else if coverage[k as int].track_id@ == track {
        Some(k as int)
    } else {
        coverage_index_from(coverage, track, k + 1)
    }
}

/// Index of the journal track `track`, if any.
pub open spec fn journal_track_index(tracks: Seq<JournalTrack>, track: Seq<char>) -> Option<int> {
    track_index_from(tracks, track, 0)
}

/// The first index from `k` of the journal track `track`.
pub open spec fn track_index_from(tracks: Seq<JournalTrack>, track: Seq<char>, k: nat) -> Option<int>
    decreases tracks.len() - k,
{
    if k >= tracks.len() {
        None
    } else if tracks[k as int].track_id@ == track {
        Some(k as int)
    } else {
        track_index_from(tracks, track, k + 1)
    }
}

pub proof fn lemma_coverage_index_from(cs: Seq<SequenceCoverage>, t: Seq<char>, k: nat)
    ensures
        coverage_index_from(cs, t, k) matches Some(i) ==> k <= i < cs.len() && cs[i].track_id@ == t
            && forall|j: int| k <= j < i ==> (#[trigger] cs[j]).track_id@ != t,
        coverage_index_from(cs, t, k) is None ==> forall|j: int| k <= j < cs.len() ==> (#[trigger] cs[j]).track_id@ != t,
    decreases cs.len() - k,
{
    if k < cs.len() {
        lemma_coverage_index_from(cs, t, k + 1);
    }
}

pub proof fn lemma_track_index_from(ts: Seq<JournalTrack>, t: Seq<char>, k: nat)
    ensures
        track_index_from(ts, t, k) matches Some(i) ==> k <= i < ts.len() && ts[i].track_id@ == t
            && forall|j: int| k <= j < i ==> (#[trigger] ts[j]).track_id@ != t,
        track_index_from(ts, t, k) is None ==> forall|j: int| k <= j < ts.len() ==> (#[trigger] ts[j]).track_id@ != t,
    decreases ts.len() - k,
{
    if k < ts.len() {
        lemma_track_index_from(ts, t, k + 1);
    }
}

/// What an accepted revision transition does to the journal: its
/// configuration and clock mapping appended, nothing else changed.
pub open spec fn transition_recorded(old_j: CaptureJournal, j: CaptureJournal, transition: RecordingRevisionTransition) -> bool {
    &&& j.track_configurations@ == old_j.track_configurations@.push(transition.configuration)
    &&& j.clock_mappings@ == old_j.clock_mappings@.push(transition.clock_mapping)
    &&& j.schema_version == old_j.schema_version
    &&& j.session_id == old_j.session_id
    &&& j.tracks == old_j.tracks
    &&& j.timeline_gaps == old_j.timeline_gaps
    &&& j.sequence_coverage == old_j.sequence_coverage
    &&& j.sequence_gaps == old_j.sequence_gaps
    &&& j.sequence_gap_overflow == old_j.sequence_gap_overflow
    &&& j.sink_degraded == old_j.sink_degraded
}

/// What an accepted timeline gap does to the journal: the timeline gaps
/// become those of `gap_observation`, nothing else changes.
pub open spec fn timeline_gap_recorded(old_j: CaptureJournal, j: CaptureJournal, gap: AudioGap) -> bool {
    &&& gap_observation(old_j, gap) matches Ok(gaps) && j.timeline_gaps@ == gaps
    &&& j.schema_version == old_j.schema_version
    &&& j.session_id == old_j.session_id
    &&& j.tracks == old_j.tracks
    &&& j.track_configurations == old_j.track_configurations
    &&& j.clock_mappings == old_j.clock_mappings
    &&& j.sequence_coverage == old_j.sequence_coverage
    &&& j.sequence_gaps == old_j.sequence_gaps
    &&& j.sequence_gap_overflow == old_j.sequence_gap_overflow
    &&& j.sink_degraded == old_j.sink_degraded
}

impl CaptureJournal {
    /// An empty journal for `session_id`.
    pub fn new(session_id: SessionId) -> (j: CaptureJournal)
        ensures
            j.schema_version == CAPTURE_SCHEMA_VERSION,
            j.session_id == session_id,
            j.tracks@.len() == 0,
            j.track_configurations@.len() == 0,
            j.clock_mappings@.len() == 0,
            j.timeline_gaps@.len() == 0,
            j.sequence_coverage@.len() == 0,
            j.sequence_gaps@.len() == 0,
            j.sequence_gap_overflow is None,
            !j.sink_degraded,
    {
        CaptureJournal {
            schema_version: CAPTURE_SCHEMA_VERSION,
            session_id,
            tracks: Vec::new(),
            track_configurations: Vec::new(),
            clock_mappings: Vec::new(),
            timeline_gaps: Vec::new(),
            sequence_coverage: Vec::new(),
            sequence_gaps: Vec::new(),
            sequence_gap_overflow: None,
            sink_degraded: false,
        }
    }

    /// Records that the sequences `[first_sequence, next_sequence)` of
    /// `track_id` were dropped: extends the last gap when it is the same
    /// track and ends there, else keeps a new detail while there is room,
    /// else only counts it.
    pub fn record_gap(&mut self, track_id: &str, first_sequence: u64, next_sequence: u64)
        ensures
            gap_recorded(*old(self), *final(self), track_id@, first_sequence, next_sequence),
    {
        let dropped_frames = next_sequence.saturating_sub(first_sequence);
        if dropped_frames == 0 {
            proof {
                assert(self.sequence_gaps@ =~= old(self).sequence_gaps@);
            }
            return;
        }
        self.sink_degraded = true;
        let count = self.sequence_gaps.len();
        if count > 0 {
            let last = count - 1;
            let extends = same_text(self.sequence_gaps[last].track_id.as_str(), track_id)
                && self.sequence_gaps[last].first_sequence.checked_add(self.sequence_gaps[last].dropped_frames)
                    == Some(first_sequence);
            if extends {
                let total = self.sequence_gaps[last].dropped_frames.saturating_add(dropped_frames);
                self.sequence_gaps[last].dropped_frames = total;
                return;
            }
        }
        if count < MAX_SEQUENCE_GAP_DETAILS {
            self.sequence_gaps.push(SequenceGap {
                track_id: String::from_str(track_id),
                first_sequence,
                dropped_frames,
            });
            proof {
                assert(self.sequence_gaps@.drop_last() =~= old(self).sequence_gaps@);
            }
            return;
        }
        let base = match self.sequence_gap_overflow {
            Some(overflow) => overflow,
            None => SequenceGapOverflow {
                detail_capacity: MAX_SEQUENCE_GAP_DETAILS as u32,
                omitted_gap_count: 0,
                omitted_dropped_frames: 0,
            },
        };
        self.sequence_gap_overflow = Some(SequenceGapOverflow {
            detail_capacity: base.detail_capacity,
            omitted_gap_count: base.omitted_gap_count.saturating_add(1),
            omitted_dropped_frames: base.omitted_dropped_frames.saturating_add(dropped_frames),
        });
    }

    /// Records a frame's metadata: the track on first sight, then the frame
    /// sequence, which extends the track's coverage, records a gap before it
    /// when sequences were skipped, or marks the sink degraded when it goes
    /// backwards or repeats.
    pub fn observe_frame(&mut self, track_id: &str, sample_rate_hz: u32, channels: u16, sequence: u64, start_ms: u64)
        ensures
            frame_observed(*old(self), *final(self), track_id@, sample_rate_hz, channels, sequence, start_ms),
    {
        match find_journal_track(&self.tracks, track_id) {
            Some(_) => {},
            None => {
                self.tracks.push(JournalTrack {
                    track_id: String::from_str(track_id),
                    sample_rate_hz,
                    channels,
                    first_start_ms: start_ms,
                });
                proof {
                    assert(self.tracks@.drop_last() =~= old(self).tracks@);
                }
            },
        }
        let ghost tracked_self = *self;
        match find_coverage(&self.sequence_coverage, track_id) {
            Some(index) => {
                let last = self.sequence_coverage[index].last_sequence;
                if sequence == last.saturating_add(1) {
                    self.sequence_coverage[index].last_sequence = sequence;
                } else if sequence > last {
                    let first_missing = last.saturating_add(1);
                    self.record_gap(track_id, first_missing, sequence);
                    self.sequence_coverage[index].last_sequence = sequence;
                } else {
                    self.sink_degraded = true;
                }
            },
            None => {
                self.sequence_coverage.push(SequenceCoverage {
                    track_id: String::from_str(track_id),
                    first_sequence: sequence,
                    last_sequence: sequence,
                });
                proof {
                    assert(self.sequence_coverage@.drop_last() =~= old(self).sequence_coverage@);
                }
            },
        }
    }

    /// Appends a configuration revision and the clock mapping that starts with
    /// it: both within the event bound, naming the same track, revision and
    /// instant, and each the next revision of its track (starting at 1), not
    /// going back in time or source position, with a positive sample rate.
    pub fn observe_revision_transition(&mut self, transition: RecordingRevisionTransition) -> (r: Result<(), String>)
        ensures
            r is Ok <==> transition_accepted(*old(self), transition.configuration, transition.clock_mapping),
            r is Ok ==> transition_recorded(*old(self), *final(self), transition),
            r matches Err(e) ==> transition_refusal(
                old(self).track_configurations@,
                old(self).clock_mappings@,
                transition.configuration,
                transition.clock_mapping,
            ) == Some(e@),
            r is Err ==> *final(self) == *old(self),
    {
        let configuration = &transition.configuration;
        let mapping = &transition.clock_mapping;
        if self.track_configurations.len() >= MAX_TIMELINE_CONTROL_EVENTS
            || self.clock_mappings.len() >= MAX_TIMELINE_CONTROL_EVENTS {
            return Err(String::from_str("recording revision-transition metadata limit reached"));
        }
        if !configuration.track_id.same_as(&mapping.track_id)
            || configuration.revision != mapping.revision
            || configuration.effective_at_ms != mapping.session_time_ms {
            return Err(String::from_str("recording revision transition is inconsistent"));
        }
        let configuration_ok = match last_configuration(&self.track_configurations, configuration) {
            Some(previous) => {
                let previous = &self.track_configurations[previous];
                previous.revision.checked_add(1) == Some(configuration.revision)
                    && configuration.effective_at_ms >= previous.effective_at_ms
                    && configuration.sample_rate_hz > 0
            },
            None => configuration.revision == 1 && configuration.sample_rate_hz > 0,
        };
        if !configuration_ok {
            return Err(String::from_str("recording track configuration is not monotonic"));
        }
        let mapping_ok = match last_mapping(&self.clock_mappings, mapping) {
            Some(previous) => {
                let previous = &self.clock_mappings[previous];
                previous.revision.checked_add(1) == Some(mapping.revision)
                    && mapping.source_position_frames >= previous.source_position_frames
                    && mapping.session_time_ms >= previous.session_time_ms
            },
            None => mapping.revision == 1,
        };
        if !mapping_ok {
            return Err(String::from_str("recording clock mapping is not monotonic"));
        }
        self.track_configurations.push(transition.configuration);
        self.clock_mappings.push(transition.clock_mapping);
        Ok(())
    }

    /// Records a timeline gap: a valid gap of a configured track either
    /// replaces the latest event of its track that started at the same place
    /// (growing it, in a later generation), or is appended after the track's
    /// previous gap, later in generation, time and source position, and not
    /// one that should have been coalesced with it.
    pub fn observe_gap(&mut self, gap: AudioGap) -> (r: Result<(), String>)
        ensures
            r is Ok <==> gap_observation(*old(self), gap) is Ok,
            r matches Err(e) ==> gap_observation(*old(self), gap) == Err::<Seq<AudioGap>, Seq<char>>(e@),
            r is Ok ==> timeline_gap_recorded(*old(self), *final(self), gap),
            r is Err ==> *final(self) == *old(self),
    {
        let configured = has_configuration(&self.track_configurations, &gap);
        if !gap.session_id.same_as(&self.session_id)
            || gap.duration_ms == 0
            || gap.dropped_frames == 0
            || !configured
            || gap.end_ms().is_none()
            || gap.source_position_frames.checked_add(gap.dropped_frames).is_none() {
            return Err(String::from_str("recording timeline gap is invalid"));
        }
        match replaced_gap(&self.timeline_gaps, &gap) {
            Some(index) => {
                let later_same_track = later_gap_of_track(&self.timeline_gaps, index, &gap);
                let previous = &self.timeline_gaps[index];
                if gap.generation <= previous.generation
                    || gap.duration_ms < previous.duration_ms
                    || gap.dropped_frames < previous.dropped_frames
                    || later_same_track {
                    return Err(String::from_str("recording timeline gap replacement regressed"));
                }
                self.timeline_gaps.set(index, gap);
                return Ok(());
            },
            None => {},
        }
        if self.timeline_gaps.len() >= MAX_TIMELINE_CONTROL_EVENTS {
            return Err(String::from_str("recording timeline-gap metadata limit reached"));
        }
        match last_gap_of_track(&self.timeline_gaps, &gap) {
            Some(index) => {
                let previous = &self.timeline_gaps[index];
                let previous_end_ms = match previous.end_ms() {
                    Some(end) => end,
                    None => return Err(String::from_str("recording timeline gap end overflowed")),
                };
                let previous_end_source = match previous.source_position_frames.checked_add(previous.dropped_frames) {
                    Some(end) => end,
                    None => return Err(String::from_str("recording timeline gap source range overflowed")),
                };
                if gap.generation <= previous.generation
                    || gap.start_ms < previous_end_ms
                    || gap.source_position_frames < previous_end_source {
                    return Err(String::from_str("recording timeline gap is not monotonic"));
                }
                if gap.cause == previous.cause
                    && gap.start_ms == previous_end_ms
                    && gap.source_position_frames == previous_end_source {
                    return Err(String::from_str("recording timeline gap was not coalesced"));
                }
            },
            None => {},
        }
        self.timeline_gaps.push(gap);
        Ok(())
    }
}

pub fn find_journal_track(tracks: &Vec<JournalTrack>, track_id: &str) -> (r: Option<usize>)
    ensures
        match r {
            Some(i) => journal_track_index(tracks@, track_id@) == Some(i as int),
            None => journal_track_index(tracks@, track_id@) is None,
        },
        r matches Some(i) ==> i < tracks.len() && tracks@[i as int].track_id@ == track_id@,
{
    let mut i: usize = 0;
    while i < tracks.len()
        invariant
            i <= tracks.len(),
            journal_track_index(tracks@, track_id@) == track_index_from(tracks@, track_id@, i as nat),
        decreases tracks.len() - i,
    {
        if same_text(tracks[i].track_id.as_str(), track_id) {
            return Some(i);
        }
        i = i + 1;
    }
    None
}

pub fn find_coverage(coverage: &Vec<SequenceCoverage>, track_id: &str) -> (r: Option<usize>)
    ensures
        match r {
            Some(i) => coverage_index(coverage@, track_id@) == Some(i as int),
            None => coverage_index(coverage@, track_id@) is None,
        },
        r matches Some(i) ==> i < coverage.len() && coverage@[i as int].track_id@ == track_id@,
{
    let mut i: usize = 0;
    while i < coverage.len()
        invariant
            i <= coverage.len(),
            coverage_index(coverage@, track_id@) == coverage_index_from(coverage@, track_id@, i as nat),
        decreases coverage.len() - i,
    {
        if same_text(coverage[i].track_id.as_str(), track_id) {
            return Some(i);
        }
        i = i + 1;
    }
    None
}

/// What observing a frame does to the journal.
pub open spec fn frame_observed(
    old_j: CaptureJournal,
    j: CaptureJournal,
    track: Seq<char>,
    sample_rate_hz: u32,
    channels: u16,
    sequence: u64,
    start_ms: u64,
) -> bool {
    &&& j.schema_version == old_j.schema_version
    &&& j.session_id == old_j.session_id
    &&& j.track_configurations == old_j.track_configurations
    &&& j.clock_mappings == old_j.clock_mappings
    &&& j.timeline_gaps == old_j.timeline_gaps
    &&& match journal_track_index(old_j.tracks@, track) {
        Some(_) => j.tracks == old_j.tracks,
        None => {
            &&& j.tracks@.len() == old_j.tracks@.len() + 1
            &&& j.tracks@.drop_last() == old_j.tracks@
            &&& j.tracks@.last().track_id@ == track
            &&& j.tracks@.last().sample_rate_hz == sample_rate_hz
            &&& j.tracks@.last().channels == channels
            &&& j.tracks@.last().first_start_ms == start_ms
        },
    }
    &&& match coverage_index(old_j.sequence_coverage@, track) {
        None => {
            &&& j.sequence_coverage@.len() == old_j.sequence_coverage@.len() + 1
            &&& j.sequence_coverage@.drop_last() == old_j.sequence_coverage@
            &&& j.sequence_coverage@.last().track_id@ == track
            &&& j.sequence_coverage@.last().first_sequence == sequence
            &&& j.sequence_coverage@.last().last_sequence == sequence
            &&& j.sequence_gaps == old_j.sequence_gaps
            &&& j.sequence_gap_overflow == old_j.sequence_gap_overflow
            &&& j.sink_degraded == old_j.sink_degraded
        },
        Some(i) => {
            let covered = old_j.sequence_coverage@[i];
            let extended = old_j.sequence_coverage@.update(i, SequenceCoverage {
                track_id: covered.track_id,
                first_sequence: covered.first_sequence,
                last_sequence: sequence,
            });
            if sequence == saturating(covered.last_sequence as int, 1) {
                &&& j.sequence_coverage@ == extended
                &&& j.sequence_gaps == old_j.sequence_gaps
                &&& j.sequence_gap_overflow == old_j.sequence_gap_overflow
                &&& j.sink_degraded == old_j.sink_degraded
            } else if sequence > covered.last_sequence {
                &&& j.sequence_coverage@ == extended
                &&& gap_record_updated(
                    old_j.sequence_gaps@,
                    old_j.sequence_gap_overflow,
                    j.sequence_gaps@,
                    j.sequence_gap_overflow,
                    track,
                    (covered.last_sequence + 1) as u64,
                    sequence,
                )
                &&& j.sink_degraded
            } else {
                &&& j.sequence_coverage == old_j.sequence_coverage
                &&& j.sequence_gaps == old_j.sequence_gaps
                &&& j.sequence_gap_overflow == old_j.sequence_gap_overflow
                &&& j.sink_degraded
            }
        },
    }
}

/// Whether the configuration follows the last one of its track: the next
/// revision, not earlier, with a positive sample rate (revision 1 first).
pub open spec fn configuration_follows(configs: Seq<TrackConfigurationRevision>, c: TrackConfigurationRevision) -> bool {
    match last_index_before(configs.len() as int, |k: int| configs[k].track_id@ == c.track_id@) {
        Some(i) => configs[i].revision + 1 == c.revision && c.effective_at_ms >= configs[i].effective_at_ms && c.sample_rate_hz > 0,
        None => c.revision == 1 && c.sample_rate_hz > 0,
    }
}

/// Whether the clock mapping follows the last one of its track: the next
/// revision, going back neither in source position nor in session time
/// (revision 1 first).
pub open spec fn mapping_follows(mappings: Seq<ClockMappingRevision>, m: ClockMappingRevision) -> bool {
    match last_index_before(mappings.len() as int, |k: int| mappings[k].track_id@ == m.track_id@) {
        Some(i) => mappings[i].revision + 1 == m.revision
            && m.source_position_frames >= mappings[i].source_position_frames
            && m.session_time_ms >= mappings[i].session_time_ms,
        None => m.revision == 1,
    }
}

/// Why a transition is refused after the configurations and mappings
/// recorded so far, checked in this order; `None` when it is accepted.
pub open spec fn transition_refusal(
    configs: Seq<TrackConfigurationRevision>,
    mappings: Seq<ClockMappingRevision>,
    c: TrackConfigurationRevision,
    m: ClockMappingRevision,
) -> Option<Seq<char>> {
    if !(configs.len() < MAX_TIMELINE_CONTROL_EVENTS && mappings.len() < MAX_TIMELINE_CONTROL_EVENTS) {
        Some("recording revision-transition metadata limit reached"@)
    } else if !(c.track_id@ == m.track_id@ && c.revision == m.revision && c.effective_at_ms == m.session_time_ms) {
        Some("recording revision transition is inconsistent"@)
    } else if !configuration_follows(configs, c) {
        Some("recording track configuration is not monotonic"@)
    } else if !mapping_follows(mappings, m) {
        Some("recording clock mapping is not monotonic"@)
    } else {
        None
    }
}

/// Whether a transition is accepted after the configurations and mappings
/// recorded so far.
pub open spec fn transition_accepted_in(
    configs: Seq<TrackConfigurationRevision>,
    mappings: Seq<ClockMappingRevision>,
    c: TrackConfigurationRevision,
    m: ClockMappingRevision,
) -> bool {
    &&& configs.len() < MAX_TIMELINE_CONTROL_EVENTS
    &&& mappings.len() < MAX_TIMELINE_CONTROL_EVENTS
    &&& c.track_id@ == m.track_id@
    &&& c.revision == m.revision
    &&& c.effective_at_ms == m.session_time_ms
    &&& configuration_follows(configs, c)
    &&& mapping_follows(mappings, m)
}

/// Whether a transition is accepted after what the journal holds.
pub open spec fn transition_accepted(j: CaptureJournal, c: TrackConfigurationRevision, m: ClockMappingRevision) -> bool {
    transition_accepted_in(j.track_configurations@, j.clock_mappings@, c, m)
}

fn last_configuration(configs: &Vec<TrackConfigurationRevision>, c: &TrackConfigurationRevision) -> (r: Option<usize>)
    ensures
        match r {
            Some(i) => last_index_before(configs@.len() as int, |k: int| configs@[k].track_id@ == c.track_id@) == Some(i as int),
            None => last_index_before(configs@.len() as int, |k: int| configs@[k].track_id@ == c.track_id@) is None,
        },
        r matches Some(i) ==> i < configs.len(),
{
    let ghost p = |k: int| configs@[k].track_id@ == c.track_id@;
    proof {
        lemma_last_index_before(configs@.len() as int, p);
    }
    let mut i: usize = configs.len();
    while i > 0
        invariant
            i <= configs.len(),
            p == (|k: int| configs@[k].track_id@ == c.track_id@),
            last_index_before(configs@.len() as int, p) == last_index_before(i as int, p),
        decreases i,
    {
        if configs[i - 1].track_id.same_as(&c.track_id) {
            return Some(i - 1);
        }
        i = i - 1;
    }
    None
}

fn last_mapping(mappings: &Vec<ClockMappingRevision>, m: &ClockMappingRevision) -> (r: Option<usize>)
    ensures
        match r {
            Some(i) => last_index_before(mappings@.len() as int, |k: int| mappings@[k].track_id@ == m.track_id@) == Some(i as int),
            None => last_index_before(mappings@.len() as int, |k: int| mappings@[k].track_id@ == m.track_id@) is None,
        },
        r matches Some(i) ==> i < mappings.len(),
{
    let ghost p = |k: int| mappings@[k].track_id@ == m.track_id@;
    proof {
        lemma_last_index_before(mappings@.len() as int, p);
    }
    let mut i: usize = mappings.len();
    while i > 0
        invariant
            i <= mappings.len(),
            p == (|k: int| mappings@[k].track_id@ == m.track_id@),
            last_index_before(mappings@.len() as int, p) == last_index_before(i as int, p),
        decreases i,
    {
        if mappings[i - 1].track_id.same_as(&m.track_id) {
            return Some(i - 1);
        }
        i = i - 1;
    }
    None
}

/// Whether some configuration revision names the gap's track.
pub open spec fn track_is_configured(configs: Seq<TrackConfigurationRevision>, gap: AudioGap) -> bool {
    exists|k: int| 0 <= k < configs.len() && (#[trigger] configs[k]).track_id@ == gap.track_id@
}

fn has_configuration(configs: &Vec<TrackConfigurationRevision>, gap: &AudioGap) -> (r: bool)
    ensures
        r == track_is_configured(configs@, *gap),
{
    let mut i: usize = 0;
    while i < configs.len()
        invariant
            i <= configs.len(),
            forall|k: int| 0 <= k < i ==> (#[trigger] configs@[k]).track_id@ != gap.track_id@,
        decreases configs.len() - i,
    {
        if configs[i].track_id.same_as(&gap.track_id) {
            return true;
        }
        i = i + 1;
    }
    false
}

/// An earlier event this gap replaces: same session, track and cause, and
/// starting at the same instant and source position.
pub open spec fn replaces(previous: AudioGap, gap: AudioGap) -> bool {
    &&& previous.session_id@ == gap.session_id@
    &&& previous.track_id@ == gap.track_id@
    &&& previous.cause == gap.cause
    &&& previous.start_ms == gap.start_ms
    &&& previous.source_position_frames == gap.source_position_frames
}

fn replaced_gap(gaps: &Vec<AudioGap>, gap: &AudioGap) -> (r: Option<usize>)
    ensures
        match r {
            Some(i) => first_index_from(0, gaps@.len() as int, |k: int| replaces(gaps@[k], *gap)) == Some(i as int),
            None => first_index_from(0, gaps@.len() as int, |k: int| replaces(gaps@[k], *gap)) is None,
        },
        r matches Some(i) ==> i < gaps.len(),
{
    let ghost p = |k: int| replaces(gaps@[k], *gap);
    proof {
        lemma_first_index_from(0, gaps@.len() as int, p);
    }
    let mut i: usize = 0;
    while i < gaps.len()
        invariant
            i <= gaps.len(),
            p == (|k: int| replaces(gaps@[k], *gap)),
            first_index_from(0, gaps@.len() as int, p) == first_index_from(i as int, gaps@.len() as int, p),
        decreases gaps.len() - i,
    {
        let previous = &gaps[i];
        if previous.session_id.same_as(&gap.session_id)
            && previous.track_id.same_as(&gap.track_id)
            && previous.cause == gap.cause
            && previous.start_ms == gap.start_ms
            && previous.source_position_frames == gap.source_position_frames {
            return Some(i);
        }
        i = i + 1;
    }
    None
}

/// Whether an event after `index` belongs to the gap's track.
pub open spec fn later_of_track(gaps: Seq<AudioGap>, index: int, gap: AudioGap) -> bool {
    exists|k: int| index < k < gaps.len() && (#[trigger] gaps[k]).track_id@ == gap.track_id@
}

fn later_gap_of_track(gaps: &Vec<AudioGap>, index: usize, gap: &AudioGap) -> (r: bool)
    requires
        index < gaps.len(),
    ensures
        r == later_of_track(gaps@, index as int, *gap),
{
    let mut i: usize = index + 1;
    while i < gaps.len()
        invariant
            index < i <= gaps.len(),
            forall|k: int| index < k < i ==> (#[trigger] gaps@[k]).track_id@ != gap.track_id@,
        decreases gaps.len() - i,
    {
        if gaps[i].track_id.same_as(&gap.track_id) {
            return true;
        }
        i = i + 1;
    }
    false
}

fn last_gap_of_track(gaps: &Vec<AudioGap>, gap: &AudioGap) -> (r: Option<usize>)
    ensures
        match r {
            Some(i) => last_index_before(gaps@.len() as int, |k: int| gaps@[k].track_id@ == gap.track_id@) == Some(i as int),
            None => last_index_before(gaps@.len() as int, |k: int| gaps@[k].track_id@ == gap.track_id@) is None,
        },
        r matches Some(i) ==> i < gaps.len(),
{
    let ghost p = |k: int| gaps@[k].track_id@ == gap.track_id@;
    proof {
        lemma_last_index_before(gaps@.len() as int, p);
    }
    let mut i: usize = gaps.len();
    while i > 0
        invariant
            i <= gaps.len(),
            p == (|k: int| gaps@[k].track_id@ == gap.track_id@),
            last_index_before(gaps@.len() as int, p) == last_index_before(i as int, p),
        decreases i,
    {
        if gaps[i - 1].track_id.same_as(&gap.track_id) {
            return Some(i - 1);
        }
        i = i - 1;
    }
    None
}

/// The journal's timeline gaps after observing `gap`, or why the gap is
/// refused.
pub open spec fn gap_observation(j: CaptureJournal, gap: AudioGap) -> Result<Seq<AudioGap>, Seq<char>> {
    let gaps = j.timeline_gaps@;
    if gap.session_id@ != j.session_id@
        || gap.duration_ms == 0
        || gap.dropped_frames == 0
        || !track_is_configured(j.track_configurations@, gap)
        || gap_end_ms(gap) is None
        || gap.source_position_frames + gap.dropped_frames > u64::MAX {
        Err("recording timeline gap is invalid"@)
    } else {
        match first_index_from(0, gaps.len() as int, |k: int| replaces(gaps[k], gap)) {
            Some(i) => {
                let previous = gaps[i];
                if gap.generation <= previous.generation
                    || gap.duration_ms < previous.duration_ms
                    || gap.dropped_frames < previous.dropped_frames
                    || later_of_track(gaps, i, gap) {
                    Err("recording timeline gap replacement regressed"@)
                } else {
                    Ok(gaps.update(i, gap))
                }
            },
            None => {
                if gaps.len() >= MAX_TIMELINE_CONTROL_EVENTS {
                    Err("recording timeline-gap metadata limit reached"@)
                } else {
                    match last_index_before(gaps.len() as int, |k: int| gaps[k].track_id@ == gap.track_id@) {
                        Some(i) => {
                            let previous = gaps[i];
                            match gap_end_ms(previous) {
                                None => Err("recording timeline gap end overflowed"@),
                                Some(previous_end_ms) => {
                                    if previous.source_position_frames + previous.dropped_frames > u64::MAX {
                                        Err("recording timeline gap source range overflowed"@)
                                    } else {
                                        let previous_end_source = previous.source_position_frames + previous.dropped_frames;
                                        if gap.generation <= previous.generation
                                            || gap.start_ms < previous_end_ms
                                            || gap.source_position_frames < previous_end_source {
                                            Err("recording timeline gap is not monotonic"@)
                                        } else if gap.cause == previous.cause
                                            && gap.start_ms == previous_end_ms
                                            && gap.source_position_frames == previous_end_source {
                                            Err("recording timeline gap was not coalesced"@)
                                        } else {
                                            Ok(gaps.push(gap))
                                        }
                                    }
                                },
                            }
                        },
                        None => Ok(gaps.push(gap)),
                    }
                }
            },
        }
    }
}

pub proof fn lemma_track_index(ts: Seq<JournalTrack>, t: Seq<char>)
    ensures
        journal_track_index(ts, t) is None <==> forall|j: int| 0 <= j < ts.len() ==> (#[trigger] ts[j]).track_id@ != t,
{
    lemma_track_index_from(ts, t, 0);
    if journal_track_index(ts, t) is Some {
        let i = journal_track_index(ts, t)->0;
        assert(ts[i].track_id@ == t);
    }
}

pub proof fn lemma_coverage_index(cs: Seq<SequenceCoverage>, t: Seq<char>, i: int)
    requires
        0 <= i < cs.len(),
        cs[i].track_id@ == t,
        forall|j: int| 0 <= j < cs.len() && j != i ==> (#[trigger] cs[j]).track_id@ != t,
    ensures
        coverage_index(cs, t) == Some(i),
{
    lemma_coverage_index_from(cs, t, 0);
}

pub proof fn lemma_no_coverage_index(cs: Seq<SequenceCoverage>, t: Seq<char>)
    requires
        forall|j: int| 0 <= j < cs.len() ==> (#[trigger] cs[j]).track_id@ != t,
    ensures
        coverage_index(cs, t) is None,
{
    lemma_coverage_index_from(cs, t, 0);
    if coverage_index(cs, t) is Some {
        let i = coverage_index(cs, t)->0;
        assert(cs[i].track_id@ == t);
    }
}

} // verus!
