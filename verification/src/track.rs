//! Per-track session timeline: configuration and clock revisions, frame
//! sequencing, and gap emission with coalescing of contiguous losses.

use vstd::prelude::*;
use crate::clock::{ClockMappingRevision, SessionClock, TimelineError};
use crate::frame::{gap_end_ms, same_gap, AudioFrame, AudioGap, TrackConfigurationRevision};
use crate::loss::LossSnapshot;
use crate::session::{SessionId, TrackId};

verus! {

/// Timeline state of one track.
#[derive(Debug)]
pub struct TrackTimeline {
    pub configuration: TrackConfigurationRevision,
    pub clock: Option<SessionClock>,
    pub next_sequence: u64,
    pub last_end_ms: Option<u64>,
    pub last_end_source_position_frames: Option<u64>,
    pub last_gap_generation: Option<u64>,
    pub coalescible_gap: Option<AudioGap>,
}

/// No two entries describe the same track.
pub open spec fn unique_tracks(s: Seq<TrackTimeline>) -> bool {
    forall|i: int, j: int|
        0 <= i < s.len() && 0 <= j < s.len() && i != j ==> #[trigger] s[i].configuration.track_id@
            != #[trigger] s[j].configuration.track_id@
}

/// The entry for track `id`, if any.
pub open spec fn track_in(s: Seq<TrackTimeline>, id: Seq<char>) -> Option<TrackTimeline> {
    if exists|i: int| 0 <= i < s.len() && s[i].configuration.track_id@ == id {
        Some(s[choose|i: int| 0 <= i < s.len() && s[i].configuration.track_id@ == id])
    } else {
        None
    }
}

pub proof fn lemma_track_in_at(s: Seq<TrackTimeline>, i: int)
    requires
        unique_tracks(s),
        0 <= i < s.len(),
    ensures
        track_in(s, s[i].configuration.track_id@) == Some(s[i]),
{
    let id = s[i].configuration.track_id@;
    let j = choose|j: int| 0 <= j < s.len() && s[j].configuration.track_id@ == id;
    assert(0 <= j < s.len() && s[j].configuration.track_id@ == id);
    if j != i {
        assert(s[i].configuration.track_id@ != s[j].configuration.track_id@);
    }
}

/// Replacing the entry at `i` by one for the same track leaves every other
/// track's entry as it was.
pub proof fn lemma_track_in_update(s: Seq<TrackTimeline>, i: int, t: TrackTimeline, k: Seq<char>)
    requires
        unique_tracks(s),
        0 <= i < s.len(),
        t.configuration.track_id@ == s[i].configuration.track_id@,
    ensures
        unique_tracks(s.update(i, t)),
        k != t.configuration.track_id@ ==> track_in(s.update(i, t), k) == track_in(s, k),
        track_in(s.update(i, t), t.configuration.track_id@) == Some(t),
{
    let u = s.update(i, t);
    assert forall|a: int, b: int|
        0 <= a < u.len() && 0 <= b < u.len() && a != b implies #[trigger] u[a].configuration.track_id@
            != #[trigger] u[b].configuration.track_id@ by {
        assert(u[a].configuration.track_id@ == s[a].configuration.track_id@);
        assert(u[b].configuration.track_id@ == s[b].configuration.track_id@);
    }
    lemma_track_in_at(u, i);
    if k == t.configuration.track_id@ {
    } else if exists|j: int| 0 <= j < s.len() && s[j].configuration.track_id@ == k {
        let j = choose|j: int| 0 <= j < s.len() && s[j].configuration.track_id@ == k;
        lemma_track_in_at(s, j);
        assert(j != i);
        assert(u[j] == s[j]);
        lemma_track_in_at(u, j);
    } else {
        assert forall|j: int| 0 <= j < u.len() implies u[j].configuration.track_id@ != k by {
            if j != i {
                assert(u[j] == s[j]);
            }
        }
    }
}

/// Appending an entry for a new track leaves the other entries as they were.
pub proof fn lemma_track_in_push(s: Seq<TrackTimeline>, t: TrackTimeline, k: Seq<char>)
    requires
        unique_tracks(s),
        track_in(s, t.configuration.track_id@) is None,
    ensures
        unique_tracks(s.push(t)),
        k != t.configuration.track_id@ ==> track_in(s.push(t), k) == track_in(s, k),
        track_in(s.push(t), t.configuration.track_id@) == Some(t),
{
    let u = s.push(t);
    assert forall|a: int, b: int|
        0 <= a < u.len() && 0 <= b < u.len() && a != b implies #[trigger] u[a].configuration.track_id@
            != #[trigger] u[b].configuration.track_id@ by {
        if a == s.len() as int {
            assert(u[b] == s[b]);
        } else if b == s.len() as int {
            assert(u[a] == s[a]);
        } else {
            assert(u[a] == s[a] && u[b] == s[b]);
        }
    }
    lemma_track_in_at(u, s.len() as int);
    if k == t.configuration.track_id@ {
    } else if exists|j: int| 0 <= j < s.len() && s[j].configuration.track_id@ == k {
        let j = choose|j: int| 0 <= j < s.len() && s[j].configuration.track_id@ == k;
        lemma_track_in_at(s, j);
        assert(u[j] == s[j]);
        lemma_track_in_at(u, j);
    } else {
        assert forall|j: int| 0 <= j < u.len() implies u[j].configuration.track_id@ != k by {
            if j < s.len() {
                assert(u[j] == s[j]);
            }
        }
    }
}

/// The per-session timeline of every configured track.
#[derive(Debug)]
pub struct Timeline {
    session_id: SessionId,
    tracks: Vec<TrackTimeline>,
}

impl Timeline {
    #[verifier::type_invariant]
    spec fn tracks_unique(self) -> bool {
        unique_tracks(self.tracks@)
    }

    pub closed spec fn session(self) -> Seq<char> {
        self.session_id@
    }

    /// The state of track `id`, if configured.
    pub closed spec fn track(self, id: Seq<char>) -> Option<TrackTimeline> {
        track_in(self.tracks@, id)
    }

    /// An empty timeline for the session.
    pub fn new(session_id: SessionId) -> (t: Timeline)
        ensures
            t.session() == session_id@,
            forall|id: Seq<char>| t.track(id) is None,
    {
        Timeline { session_id, tracks: Vec::new() }
    }

    fn find_track(&self, id: &TrackId) -> (r: Option<usize>)
        ensures
            r matches Some(i) ==> i < self.tracks@.len() && self.tracks@[i as int].configuration.track_id@ == id@
                && self.track(id@) == Some(self.tracks@[i as int]),
            r is None ==> self.track(id@) is None,
    {
        proof {
            use_type_invariant(self);
        }
        let mut i: usize = 0;
        while i < self.tracks.len()
            invariant
                0 <= i <= self.tracks@.len(),
                unique_tracks(self.tracks@),
                forall|j: int| 0 <= j < i ==> self.tracks@[j].configuration.track_id@ != id@,
            decreases self.tracks@.len() - i,
        {
            if self.tracks[i].configuration.track_id.same_as(id) {
                proof {
                    lemma_track_in_at(self.tracks@, i as int);
                }
                return Some(i);
            }
            i = i + 1;
        }
        None
    }
}


/// A configuration that does not advance the track's revision, or moves its
/// effective instant backwards.
pub open spec fn configuration_regresses(prior: Option<TrackTimeline>, c: TrackConfigurationRevision) -> bool {
    prior matches Some(p) && (c.revision <= p.configuration.revision || c.effective_at_ms
        < p.configuration.effective_at_ms)
}

/// The state after configuring: sequencing and positional history carry
/// over, while the clock and any coalescible gap are reset.
pub open spec fn configured_track(prior: Option<TrackTimeline>, c: TrackConfigurationRevision) -> TrackTimeline {
    TrackTimeline {
        configuration: c,
        clock: None,
        next_sequence: match prior {
            Some(p) => p.next_sequence,
            None => 0,
        },
        last_end_ms: match prior {
            Some(p) => p.last_end_ms,
            None => None,
        },
        last_end_source_position_frames: match prior {
            Some(p) => p.last_end_source_position_frames,
            None => None,
        },
        last_gap_generation: match prior {
            Some(p) => p.last_gap_generation,
            None => None,
        },
        coalescible_gap: None,
    }
}

impl Timeline {
    /// Installs a new configuration revision for its track. A revision that
    /// is not newer, or whose effective instant precedes the current one, is
    /// refused with `RevisionRegression` and changes nothing.
    pub fn configure_track(&mut self, configuration: TrackConfigurationRevision) -> (r: Result<(), TimelineError>)
        ensures
            final(self).session() == old(self).session(),
            r is Err <==> configuration_regresses(old(self).track(configuration.track_id@), configuration),
            r matches Err(e) ==> e == TimelineError::RevisionRegression && *final(self) == *old(self),
            r is Ok ==> final(self).track(configuration.track_id@) == Some(
                configured_track(old(self).track(configuration.track_id@), configuration),
            ),
            r is Ok ==> forall|k: Seq<char>| k != configuration.track_id@ ==> #[trigger] final(self).track(k)
                == old(self).track(k),
            track_step(
                old(self).session(),
                configuration.track_id@,
                old(self).track(configuration.track_id@),
                final(self).track(configuration.track_id@),
                TrackEvent::Configure(configuration),
                r is Ok,
                arbitrary(),
            ),
    {
        proof {
            use_type_invariant(&*self);
        }
        let found = self.find_track(&configuration.track_id);
        let ghost id = configuration.track_id@;
        let ghost prior = self.track(id);
        match found {
            Some(i) => {
                if configuration.revision <= self.tracks[i].configuration.revision
                    || configuration.effective_at_ms < self.tracks[i].configuration.effective_at_ms
                {
                    return Err(TimelineError::RevisionRegression);
                }
            },
            None => {},
        }
        let mut tracks: Vec<TrackTimeline> = Vec::new();
        std::mem::swap(&mut tracks, &mut self.tracks);
        let ghost before = tracks@;
        match found {
            Some(i) => {
                let p = tracks.remove(i);
                let t = TrackTimeline {
                    next_sequence: p.next_sequence,
                    last_end_ms: p.last_end_ms,
                    last_end_source_position_frames: p.last_end_source_position_frames,
                    last_gap_generation: p.last_gap_generation,
                    coalescible_gap: None,
                    configuration,
                    clock: None,
                };
                tracks.insert(i, t);
                proof {
                    assert(tracks@ =~= before.update(i as int, t));
                    assert forall|k: Seq<char>| k != id implies #[trigger] track_in(tracks@, k) == track_in(
                        before,
                        k,
                    ) by {
                        lemma_track_in_update(before, i as int, t, k);
                    }
                    lemma_track_in_at(tracks@, i as int);
                }
            },
            None => {
                let t = TrackTimeline {
                    next_sequence: 0,
                    last_end_ms: None,
                    last_end_source_position_frames: None,
                    last_gap_generation: None,
                    coalescible_gap: None,
                    configuration,
                    clock: None,
                };
                tracks.push(t);
                proof {
                    assert forall|k: Seq<char>| k != id implies #[trigger] track_in(tracks@, k) == track_in(
                        before,
                        k,
                    ) by {
                        lemma_track_in_push(before, t, k);
                    }
                    lemma_track_in_push(before, t, seq!['x']);
                    lemma_track_in_at(tracks@, before.len() as int);
                }
            },
        }
        self.tracks = tracks;
        Ok(())
    }
}


proof fn lemma_remove_insert(s: Seq<TrackTimeline>, i: int, t: TrackTimeline)
    requires
        0 <= i < s.len(),
    ensures
        s.remove(i).insert(i, t) =~= s.update(i, t),
{
}

/// Which error, if any, mapping a clock for a track raises.
pub open spec fn map_clock_result(t: Option<TrackTimeline>, m: ClockMappingRevision) -> Result<(), TimelineError> {
    match t {
        None => Err(TimelineError::MissingTrackConfiguration),
        Some(t) => {
            if (t.clock matches Some(c) && m.revision <= c.mapping().revision) {
                Err(TimelineError::RevisionRegression)
            } else if (t.last_end_ms matches Some(l) && m.session_time_ms < l) || (
            t.last_end_source_position_frames matches Some(l) && m.source_position_frames < l) {
                Err(TimelineError::InvalidTiming)
            } else if t.configuration.sample_rate_hz == 0 {
                Err(TimelineError::InvalidTiming)
            } else {
                Ok(())
            }
        },
    }
}

/// `new` is `old` with the clock `m` installed and coalescing reset.
pub open spec fn clock_mapped(new: TrackTimeline, old: TrackTimeline, m: ClockMappingRevision) -> bool {
    &&& new.configuration == old.configuration
    &&& new.next_sequence == old.next_sequence
    &&& new.last_end_ms == old.last_end_ms
    &&& new.last_end_source_position_frames == old.last_end_source_position_frames
    &&& new.last_gap_generation == old.last_gap_generation
    &&& new.coalescible_gap is None
    &&& new.clock matches Some(c) && c.mapping() == m && c.rate() == old.configuration.sample_rate_hz
}

/// The `(start, duration)` of a frame, or the error it raises.
pub open spec fn frame_result(t: Option<TrackTimeline>, src: u64, count: u64, channels: u16) -> Result<(u64, u32), TimelineError> {
    if channels == 0 {
        Err(TimelineError::InvalidTiming)
    } else {
        match t {
            None => Err(TimelineError::MissingTrackConfiguration),
            Some(t) => match t.clock {
                None => Err(TimelineError::MissingClockMapping),
                Some(c) => {
                    if src + count > u64::MAX {
                        Err(TimelineError::InvalidTiming)
                    } else if (t.last_end_source_position_frames matches Some(l) && src < l) {
                        Err(TimelineError::InvalidTiming)
                    } else {
                        match c.interval_of(src as int, count as int) {
                            None => Err(TimelineError::InvalidTiming),
                            Some((start, duration)) => {
                                if start + duration > u64::MAX {
                                    Err(TimelineError::InvalidTiming)
                                } else if (t.last_end_ms matches Some(l) && start < l) {
                                    Err(TimelineError::InvalidTiming)
                                } else if count * channels > usize::MAX {
                                    Err(TimelineError::InvalidTiming)
                                } else if t.next_sequence == u64::MAX {
                                    Err(TimelineError::SequenceOverflow)
                                } else {
                                    Ok((start, duration))
                                }
                            },
                        }
                    }
                },
            },
        }
    }
}

/// `new` is `old` advanced past a frame of `count` frames from `src`
/// spanning `[start, start + duration)`.
pub open spec fn frame_advanced(new: TrackTimeline, old: TrackTimeline, src: u64, count: u64, start: u64, duration: u32) -> bool {
    &&& new.configuration == old.configuration
    &&& new.clock == old.clock
    &&& new.next_sequence == old.next_sequence + 1
    &&& new.last_end_ms == Some((start + duration) as u64)
    &&& new.last_end_source_position_frames == Some((src + count) as u64)
    &&& new.last_gap_generation == old.last_gap_generation
    &&& new.coalescible_gap is None
}

impl Timeline {
    /// Installs a clock mapping for a configured track. A mapping must
    /// advance the revision and may not start before the end of anything
    /// already emitted on the track, in session time or in source frames.
    pub fn map_clock(&mut self, mapping: ClockMappingRevision) -> (r: Result<(), TimelineError>)
        ensures
            final(self).session() == old(self).session(),
            r == map_clock_result(old(self).track(mapping.track_id@), mapping),
            r is Err ==> *final(self) == *old(self),
            r is Ok ==> (final(self).track(mapping.track_id@) matches Some(t) && clock_mapped(
                t,
                old(self).track(mapping.track_id@)->0,
                mapping,
            )),
            r is Ok ==> forall|k: Seq<char>| k != mapping.track_id@ ==> #[trigger] final(self).track(k)
                == old(self).track(k),
            track_step(
                old(self).session(),
                mapping.track_id@,
                old(self).track(mapping.track_id@),
                final(self).track(mapping.track_id@),
                TrackEvent::MapClock(mapping),
                r is Ok,
                arbitrary(),
            ),
    {
        proof {
            use_type_invariant(&*self);
        }
        let i = match self.find_track(&mapping.track_id) {
            Some(i) => i,
            None => return Err(TimelineError::MissingTrackConfiguration),
        };
        let ghost id = mapping.track_id@;
        match &self.tracks[i].clock {
            Some(clock) => {
                if mapping.revision <= clock.mapping_revision() {
                    return Err(TimelineError::RevisionRegression);
                }
            },
            None => {},
        }
        let regresses_time = match self.tracks[i].last_end_ms {
            Some(last_end_ms) => mapping.session_time_ms < last_end_ms,
            None => false,
        };
        let regresses_source = match self.tracks[i].last_end_source_position_frames {
            Some(last_end) => mapping.source_position_frames < last_end,
            None => false,
        };
        if regresses_time || regresses_source {
            return Err(TimelineError::InvalidTiming);
        }
        let clock = SessionClock::new(mapping, self.tracks[i].configuration.sample_rate_hz)?;
        let mut tracks: Vec<TrackTimeline> = Vec::new();
        std::mem::swap(&mut tracks, &mut self.tracks);
        let ghost before = tracks@;
        let mut t = tracks.remove(i);
        t.clock = Some(clock);
        t.coalescible_gap = None;
        tracks.insert(i, t);
        proof {
            lemma_remove_insert(before, i as int, t);
            assert forall|k: Seq<char>| k != id implies #[trigger] track_in(tracks@, k) == track_in(before, k) by {
                lemma_track_in_update(before, i as int, t, k);
            }
            lemma_track_in_update(before, i as int, t, id);
        }
        self.tracks = tracks;
        Ok(())
    }

    /// Sequences a frame of `frame_count` source frames from
    /// `source_position_frames` on a configured, clock-mapped track. Frames
    /// may not overlap what the track already emitted, in source frames or
    /// in session time. Errors change nothing.
    pub fn frame(&mut self, track_id: &TrackId, source_position_frames: u64, frame_count: u64, channels: u16) -> (r: Result<AudioFrame, TimelineError>)
        ensures
            final(self).session() == old(self).session(),
            r is Ok <==> frame_result(old(self).track(track_id@), source_position_frames, frame_count, channels) is Ok,
            r matches Err(e) ==> frame_result(old(self).track(track_id@), source_position_frames, frame_count, channels)
                == Err::<(u64, u32), TimelineError>(e) && *final(self) == *old(self),
            r matches Ok(f) ==> {
                let old_track = old(self).track(track_id@)->0;
                &&& frame_result(old(self).track(track_id@), source_position_frames, frame_count, channels)
                    == Ok::<(u64, u32), TimelineError>((f.start_ms, f.duration_ms))
                &&& f.session_id@ == old(self).session()
                &&& f.track_id@ == track_id@
                &&& f.sequence == old_track.next_sequence
                &&& f.sample_rate_hz == old_track.configuration.sample_rate_hz
                &&& f.channels == channels
                &&& f.sample_count == frame_count * channels
                &&& (final(self).track(track_id@) matches Some(t) && frame_advanced(
                    t,
                    old_track,
                    source_position_frames,
                    frame_count,
                    f.start_ms,
                    f.duration_ms,
                ))
                &&& forall|k: Seq<char>| k != track_id@ ==> #[trigger] final(self).track(k) == old(self).track(k)
            },
            track_step(
                old(self).session(),
                track_id@,
                old(self).track(track_id@),
                final(self).track(track_id@),
                TrackEvent::Frame { source_position_frames, frame_count, channels },
                r is Ok,
                arbitrary(),
            ),
    {
        proof {
            use_type_invariant(&*self);
        }
        if channels == 0 {
            return Err(TimelineError::InvalidTiming);
        }
        let i = match self.find_track(track_id) {
            Some(i) => i,
            None => return Err(TimelineError::MissingTrackConfiguration),
        };
        let ghost id = track_id@;
        let (start_ms, duration_ms, end_source) = {
            let state = &self.tracks[i];
            let clock = match &state.clock {
                Some(clock) => clock,
                None => return Err(TimelineError::MissingClockMapping),
            };
            let end_source = match source_position_frames.checked_add(frame_count) {
                Some(end) => end,
                None => return Err(TimelineError::InvalidTiming),
            };
            match state.last_end_source_position_frames {
                Some(last_end) => {
                    if source_position_frames < last_end {
                        return Err(TimelineError::InvalidTiming);
                    }
                },
                None => {},
            }
            let (start_ms, duration_ms) = clock.interval_ms(source_position_frames, frame_count)?;
            (start_ms, duration_ms, end_source)
        };
        let end_ms = match start_ms.checked_add(duration_ms as u64) {
            Some(end) => end,
            None => return Err(TimelineError::InvalidTiming),
        };
        match self.tracks[i].last_end_ms {
            Some(last_end_ms) => {
                if start_ms < last_end_ms {
                    return Err(TimelineError::InvalidTiming);
                }
            },
            None => {},
        }
        if frame_count > usize::MAX as u64 {
            assert(frame_count * channels > usize::MAX) by (nonlinear_arith)
                requires
                    frame_count > usize::MAX,
                    channels >= 1,
            ;
            return Err(TimelineError::InvalidTiming);
        }
        let count = frame_count as usize;
        let sample_count = match count.checked_mul(channels as usize) {
            Some(n) => n,
            None => return Err(TimelineError::InvalidTiming),
        };
        let sequence = self.tracks[i].next_sequence;
        if sequence == u64::MAX {
            return Err(TimelineError::SequenceOverflow);
        }
        let sample_rate_hz = self.tracks[i].configuration.sample_rate_hz;
        let mut tracks: Vec<TrackTimeline> = Vec::new();
        std::mem::swap(&mut tracks, &mut self.tracks);
        let ghost before = tracks@;
        let mut t = tracks.remove(i);
        t.next_sequence = sequence + 1;
        t.last_end_ms = Some(end_ms);
        t.last_end_source_position_frames = Some(end_source);
        t.coalescible_gap = None;
        tracks.insert(i, t);
        proof {
            lemma_remove_insert(before, i as int, t);
            assert forall|k: Seq<char>| k != id implies #[trigger] track_in(tracks@, k) == track_in(before, k) by {
                lemma_track_in_update(before, i as int, t, k);
            }
            lemma_track_in_update(before, i as int, t, id);
        }
        self.tracks = tracks;
        Ok(AudioFrame {
            session_id: self.session_id.duplicate(),
            track_id: track_id.duplicate(),
            sequence,
            sample_rate_hz,
            channels,
            start_ms,
            duration_ms,
            sample_count,
        })
    }
}


/// `next` continues `previous` exactly: same session, track and cause, a
/// later generation, and both its source position and its start time begin
/// where `previous` ends.
pub open spec fn gaps_contiguous(previous: AudioGap, next: AudioGap) -> bool {
    &&& previous.session_id@ == next.session_id@
    &&& previous.track_id@ == next.track_id@
    &&& previous.cause == next.cause
    &&& next.generation > previous.generation
    &&& previous.source_position_frames + previous.dropped_frames <= u64::MAX
    &&& previous.source_position_frames + previous.dropped_frames == next.source_position_frames
    &&& gap_end_ms(previous) == Some(next.start_ms)
}

/// Whether the merged totals fit their types.
pub open spec fn merge_fits(previous: AudioGap, next: AudioGap) -> bool {
    &&& previous.duration_ms + next.duration_ms <= u32::MAX
    &&& previous.dropped_frames + next.dropped_frames <= u64::MAX
}

/// `merged` is `previous` extended by `next`.
pub open spec fn merged_gap(merged: AudioGap, previous: AudioGap, next: AudioGap) -> bool {
    &&& merged.session_id@ == previous.session_id@
    &&& merged.track_id@ == previous.track_id@
    &&& merged.start_ms == previous.start_ms
    &&& merged.source_position_frames == previous.source_position_frames
    &&& merged.cause == previous.cause
    &&& merged.duration_ms == previous.duration_ms + next.duration_ms
    &&& merged.dropped_frames == previous.dropped_frames + next.dropped_frames
    &&& merged.generation == next.generation
}

fn gaps_are_contiguous(previous: &AudioGap, next: &AudioGap) -> (b: bool)
    ensures
        b == gaps_contiguous(*previous, *next),
{
    previous.session_id.same_as(&next.session_id) && previous.track_id.same_as(&next.track_id)
        && previous.cause == next.cause && next.generation > previous.generation && match previous.source_position_frames.checked_add(previous.dropped_frames) {
        Some(end) => end == next.source_position_frames,
        None => false,
    } && match previous.end_ms() {
        Some(end) => end == next.start_ms,
        None => false,
    }
}

/// Extends `previous` by `next`. Every total is checked before anything
/// changes: on overflow the error is `InvalidTiming` and `previous` is
/// untouched.
pub fn merge_gap(previous: &mut AudioGap, next: &AudioGap) -> (r: Result<(), TimelineError>)
    ensures
        r is Ok <==> merge_fits(*old(previous), *next),
        r matches Err(e) ==> e == TimelineError::InvalidTiming && *final(previous) == *old(previous),
        r is Ok ==> merged_gap(*final(previous), *old(previous), *next),
{
    let duration_ms = match previous.duration_ms.checked_add(next.duration_ms) {
        Some(d) => d,
        None => return Err(TimelineError::InvalidTiming),
    };
    let dropped_frames = match previous.dropped_frames.checked_add(next.dropped_frames) {
        Some(d) => d,
        None => return Err(TimelineError::InvalidTiming),
    };
    previous.duration_ms = duration_ms;
    previous.dropped_frames = dropped_frames;
    previous.generation = next.generation;
    Ok(())
}

/// The interval of a drained loss on a track, or the error it raises.
pub open spec fn gap_result(t: Option<TrackTimeline>, loss: LossSnapshot) -> Result<(u64, u32), TimelineError> {
    if loss.dropped_frames == 0 {
        Err(TimelineError::InvalidTiming)
    } else {
        match t {
            None => Err(TimelineError::MissingTrackConfiguration),
            Some(t) => {
                if (t.last_gap_generation matches Some(g) && loss.generation <= g) {
                    Err(TimelineError::GenerationRegression)
                } else {
                    match t.clock {
                        None => Err(TimelineError::MissingClockMapping),
                        Some(c) => {
                            let src = loss.first_source_position_frames;
                            if src + loss.dropped_frames > u64::MAX {
                                Err(TimelineError::InvalidTiming)
                            } else if (t.last_end_source_position_frames matches Some(l) && src < l) {
                                Err(TimelineError::InvalidTiming)
                            } else {
                                match c.interval_of(src as int, loss.dropped_frames as int) {
                                    None => Err(TimelineError::InvalidTiming),
                                    Some((start, duration)) => {
                                        if start + duration > u64::MAX {
                                            Err(TimelineError::InvalidTiming)
                                        } else if (t.last_end_ms matches Some(l) && start < l) {
                                            Err(TimelineError::InvalidTiming)
                                        } else {
                                            Ok((start, duration))
                                        }
                                    },
                                }
                            }
                        },
                    }
                }
            },
        }
    }
}

/// `g` is the gap a loss becomes on a track of session `session`.
pub open spec fn gap_of_loss(g: AudioGap, session: Seq<char>, track: Seq<char>, loss: LossSnapshot, start: u64, duration: u32) -> bool {
    &&& g.session_id@ == session
    &&& g.track_id@ == track
    &&& g.start_ms == start
    &&& g.duration_ms == duration
    &&& g.source_position_frames == loss.first_source_position_frames
    &&& g.dropped_frames == loss.dropped_frames
    &&& g.cause == loss.cause
    &&& g.generation == loss.generation
}

/// Positional state after a gap; sequencing, configuration and clock stay.
pub open spec fn gap_advanced(new: TrackTimeline, old: TrackTimeline, loss: LossSnapshot, start: u64, duration: u32) -> bool {
    &&& new.configuration == old.configuration
    &&& new.clock == old.clock
    &&& new.next_sequence == old.next_sequence
    &&& new.last_gap_generation == Some(loss.generation)
    &&& new.last_end_ms == Some((start + duration) as u64)
    &&& new.last_end_source_position_frames == Some(
        (loss.first_source_position_frames + loss.dropped_frames) as u64,
    )
}

/// `prev` is continued exactly by the gap a loss becomes at `start`.
pub open spec fn continues(prev: AudioGap, session: Seq<char>, track: Seq<char>, loss: LossSnapshot, start: u64) -> bool {
    &&& prev.session_id@ == session
    &&& prev.track_id@ == track
    &&& prev.cause == loss.cause
    &&& loss.generation > prev.generation
    &&& prev.source_position_frames + prev.dropped_frames == loss.first_source_position_frames
    &&& gap_end_ms(prev) == Some(start)
}

/// The track after a gap holds `emitted` as its coalescible gap.
pub open spec fn gap_track_after(n: Option<TrackTimeline>, t: TrackTimeline, loss: LossSnapshot, start: u64, duration: u32, emitted: AudioGap) -> bool {
    &&& n is Some
    &&& gap_advanced(n->0, t, loss, start, duration)
    &&& n->0.coalescible_gap is Some
    &&& same_gap(n->0.coalescible_gap->0, emitted)
}

/// What `Timeline::gap` returns and leaves, given the track before (`t_old`)
/// and after (`t_new`).
pub open spec fn gap_outcome(
    t_old: Option<TrackTimeline>,
    t_new: Option<TrackTimeline>,
    session: Seq<char>,
    track: Seq<char>,
    loss: LossSnapshot,
    r: Result<AudioGap, TimelineError>,
) -> bool {
    match gap_result(t_old, loss) {
        Err(e) => r == Err::<AudioGap, TimelineError>(e),
        Ok((start, duration)) => {
            let t = t_old->0;
            if t.coalescible_gap is Some && continues(t.coalescible_gap->0, session, track, loss, start) {
                let prev = t.coalescible_gap->0;
                if prev.duration_ms + duration > u32::MAX || prev.dropped_frames + loss.dropped_frames > u64::MAX {
                    r == Err::<AudioGap, TimelineError>(TimelineError::InvalidTiming)
                } else {
                    &&& r is Ok
                    &&& r->Ok_0.session_id@ == prev.session_id@
                    &&& r->Ok_0.track_id@ == prev.track_id@
                    &&& r->Ok_0.start_ms == prev.start_ms
                    &&& r->Ok_0.source_position_frames == prev.source_position_frames
                    &&& r->Ok_0.cause == prev.cause
                    &&& r->Ok_0.duration_ms == prev.duration_ms + duration
                    &&& r->Ok_0.dropped_frames == prev.dropped_frames + loss.dropped_frames
                    &&& r->Ok_0.generation == loss.generation
                    &&& gap_track_after(t_new, t, loss, start, duration, r->Ok_0)
                }
            } else {
                &&& r is Ok
                &&& gap_of_loss(r->Ok_0, session, track, loss, start, duration)
                &&& gap_track_after(t_new, t, loss, start, duration, r->Ok_0)
            }
        },
    }
}

impl Timeline {
    /// Turns a drained loss into a timeline gap on a configured, clock-mapped
    /// track. Generations must increase, and the gap may not overlap what the
    /// track already emitted. A gap that exactly continues the track's last
    /// gap (same cause, no frame or clock change between them) is merged into
    /// it and the merged gap is returned; otherwise the gap is returned as
    /// is and becomes the one later gaps may extend. Errors change nothing.
    pub fn gap(&mut self, track_id: &TrackId, loss: LossSnapshot) -> (r: Result<AudioGap, TimelineError>)
        ensures
            final(self).session() == old(self).session(),
            gap_outcome(
                old(self).track(track_id@),
                final(self).track(track_id@),
                old(self).session(),
                track_id@,
                loss,
                r,
            ),
            r is Err ==> *final(self) == *old(self),
            forall|k: Seq<char>| k != track_id@ ==> #[trigger] final(self).track(k) == old(self).track(k),
            track_step(
                old(self).session(),
                track_id@,
                old(self).track(track_id@),
                final(self).track(track_id@),
                TrackEvent::Gap(loss),
                r is Ok,
                match r {
                    Ok(g) => g,
                    Err(_) => arbitrary(),
                },
            ),
    {
        proof {
            use_type_invariant(&*self);
        }
        if loss.dropped_frames == 0 {
            return Err(TimelineError::InvalidTiming);
        }
        let i = match self.find_track(track_id) {
            Some(i) => i,
            None => return Err(TimelineError::MissingTrackConfiguration),
        };
        let ghost id = track_id@;
        match self.tracks[i].last_gap_generation {
            Some(generation) => {
                if loss.generation <= generation {
                    return Err(TimelineError::GenerationRegression);
                }
            },
            None => {},
        }
        let (start_ms, duration_ms, end_source) = {
            let state = &self.tracks[i];
            let clock = match &state.clock {
                Some(clock) => clock,
                None => return Err(TimelineError::MissingClockMapping),
            };
            let end_source = match loss.first_source_position_frames.checked_add(loss.dropped_frames) {
                Some(end) => end,
                None => return Err(TimelineError::InvalidTiming),
            };
            match state.last_end_source_position_frames {
                Some(last_end) => {
                    if loss.first_source_position_frames < last_end {
                        return Err(TimelineError::InvalidTiming);
                    }
                },
                None => {},
            }
            let (start_ms, duration_ms) = clock.interval_ms(loss.first_source_position_frames, loss.dropped_frames)?;
            (start_ms, duration_ms, end_source)
        };
        let end_ms = match start_ms.checked_add(duration_ms as u64) {
            Some(end) => end,
            None => return Err(TimelineError::InvalidTiming),
        };
        match self.tracks[i].last_end_ms {
            Some(last_end_ms) => {
                if start_ms < last_end_ms {
                    return Err(TimelineError::InvalidTiming);
                }
            },
            None => {},
        }
        let gap = AudioGap {
            session_id: self.session_id.duplicate(),
            track_id: track_id.duplicate(),
            start_ms,
            duration_ms,
            source_position_frames: loss.first_source_position_frames,
            dropped_frames: loss.dropped_frames,
            cause: loss.cause,
            generation: loss.generation,
        };
        let contiguous = match &self.tracks[i].coalescible_gap {
            Some(previous) => gaps_are_contiguous(previous, &gap),
            None => false,
        };
        let mut merged: Option<AudioGap> = None;
        if contiguous {
            let mut previous = match &self.tracks[i].coalescible_gap {
                Some(previous) => previous.duplicate(),
                None => {
                    proof {
                        assert(false);
                    }
                    return Err(TimelineError::InvalidTiming);
                },
            };
            merge_gap(&mut previous, &gap)?;
            merged = Some(previous);
        }
        let mut tracks: Vec<TrackTimeline> = Vec::new();
        std::mem::swap(&mut tracks, &mut self.tracks);
        let ghost before = tracks@;
        let mut t = tracks.remove(i);
        let emitted = match merged {
            Some(m) => {
                t.coalescible_gap = Some(m.duplicate());
                m
            },
            None => {
                t.coalescible_gap = Some(gap.duplicate());
                gap
            },
        };
        t.last_gap_generation = Some(loss.generation);
        t.last_end_ms = Some(end_ms);
        t.last_end_source_position_frames = Some(end_source);
        tracks.insert(i, t);
        proof {
            lemma_remove_insert(before, i as int, t);
            assert forall|k: Seq<char>| k != id implies #[trigger] track_in(tracks@, k) == track_in(before, k) by {
                lemma_track_in_update(before, i as int, t, k);
            }
            lemma_track_in_update(before, i as int, t, id);
        }
        self.tracks = tracks;
        Ok(emitted)
    }
}


/// Successive frames on a track follow each other: the second is numbered
/// one after the first, at the same sample rate and clock, and starts no
/// earlier than where the first ended, in source frames and in session
/// time.
pub proof fn law_successive_frames_follow_each_other(
    t0: TrackTimeline,
    t1: TrackTimeline,
    src1: u64,
    n1: u64,
    ch1: u16,
    start1: u64,
    duration1: u32,
    src2: u64,
    n2: u64,
    ch2: u16,
    start2: u64,
    duration2: u32,
)
    requires
        frame_result(Some(t0), src1, n1, ch1) == Ok::<(u64, u32), TimelineError>((start1, duration1)),
        frame_advanced(t1, t0, src1, n1, start1, duration1),
        frame_result(Some(t1), src2, n2, ch2) == Ok::<(u64, u32), TimelineError>((start2, duration2)),
    ensures
        t1.next_sequence == t0.next_sequence + 1,
        t1.configuration == t0.configuration,
        t1.clock == t0.clock,
        src2 >= src1 + n1,
        start2 >= start1 + duration1,
{
}

/// Once a clock mapping is installed, every frame of the track is timed by
/// that mapping at the configured rate, and the next gap is never merged
/// into one emitted before the mapping.
pub proof fn law_mapped_clock_times_later_output(
    t0: TrackTimeline,
    t1: TrackTimeline,
    m: ClockMappingRevision,
    src: u64,
    n: u64,
    channels: u16,
    session: Seq<char>,
    track: Seq<char>,
    loss: LossSnapshot,
    t2: Option<TrackTimeline>,
    g: AudioGap,
)
    requires
        map_clock_result(Some(t0), m) is Ok,
        clock_mapped(t1, t0, m),
        gap_outcome(Some(t1), t2, session, track, loss, Ok::<AudioGap, TimelineError>(g)),
    ensures
        t1.clock matches Some(c) && c.mapping() == m && c.rate() == t0.configuration.sample_rate_hz,
        frame_result(Some(t1), src, n, channels) matches Ok(iv) ==> t1.clock->0.interval_of(src as int, n as int)
            == Some(iv),
        gap_result(Some(t1), loss) matches Ok((start, duration)) && gap_of_loss(g, session, track, loss, start, duration),
{
}

/// Gap generations must grow: after a gap of generation `g`, a loss of
/// generation `g` or less (that dropped anything) is refused with
/// `GenerationRegression`, whatever else it carries.
pub proof fn law_gap_generations_must_grow(
    t0: TrackTimeline,
    t1: Option<TrackTimeline>,
    session: Seq<char>,
    track: Seq<char>,
    first: LossSnapshot,
    emitted: AudioGap,
    second: LossSnapshot,
)
    requires
        gap_outcome(Some(t0), t1, session, track, first, Ok::<AudioGap, TimelineError>(emitted)),
        second.dropped_frames != 0,
        second.generation <= first.generation,
    ensures
        gap_result(t1, second) == Err::<(u64, u32), TimelineError>(TimelineError::GenerationRegression),
{
}

/// Two successive gaps with nothing between them on the track, the second
/// continuing the first exactly (same cause, from where the first ended in
/// source frames and in session time), come out as one: the second call
/// returns the first gap extended by the second loss, with the later
/// generation, provided the totals fit.
pub proof fn law_contiguous_gaps_coalesce(
    t0: TrackTimeline,
    t1: Option<TrackTimeline>,
    t2: Option<TrackTimeline>,
    session: Seq<char>,
    track: Seq<char>,
    first: LossSnapshot,
    emitted: AudioGap,
    second: LossSnapshot,
    r: Result<AudioGap, TimelineError>,
    start: u64,
    duration: u32,
)
    requires
        gap_outcome(Some(t0), t1, session, track, first, Ok::<AudioGap, TimelineError>(emitted)),
        gap_outcome(t1, t2, session, track, second, r),
        gap_result(t1, second) == Ok::<(u64, u32), TimelineError>((start, duration)),
        continues(emitted, session, track, second, start),
        emitted.duration_ms + duration <= u32::MAX,
        emitted.dropped_frames + second.dropped_frames <= u64::MAX,
    ensures
        r matches Ok(merged) && {
            &&& merged.session_id@ == emitted.session_id@
            &&& merged.track_id@ == emitted.track_id@
            &&& merged.start_ms == emitted.start_ms
            &&& merged.source_position_frames == emitted.source_position_frames
            &&& merged.cause == emitted.cause
            &&& merged.duration_ms == emitted.duration_ms + duration
            &&& merged.dropped_frames == emitted.dropped_frames + second.dropped_frames
            &&& merged.generation == second.generation
        },
{
}

/// A frame between two gaps keeps them apart: the gap after the frame is
/// the loss as it is, never merged into the one before.
pub proof fn law_frame_separates_gaps(
    t0: TrackTimeline,
    t1: TrackTimeline,
    src: u64,
    n: u64,
    start: u64,
    duration: u32,
    session: Seq<char>,
    track: Seq<char>,
    loss: LossSnapshot,
    t2: Option<TrackTimeline>,
    g: AudioGap,
)
    requires
        frame_advanced(t1, t0, src, n, start, duration),
        gap_outcome(Some(t1), t2, session, track, loss, Ok::<AudioGap, TimelineError>(g)),
    ensures
        gap_result(Some(t1), loss) matches Ok((s, d)) && gap_of_loss(g, session, track, loss, s, d),
{
}


/// A new configuration revision drops the track's clock: until a clock
/// mapping is installed again, every frame is refused with
/// `MissingClockMapping` (after the channel check) and every gap with
/// `MissingClockMapping` (after the loss and generation checks).
pub proof fn law_reconfiguration_needs_a_new_clock(
    prior: Option<TrackTimeline>,
    c: TrackConfigurationRevision,
    src: u64,
    n: u64,
    channels: u16,
    loss: LossSnapshot,
)
    requires
        !configuration_regresses(prior, c),
    ensures
        channels != 0 ==> frame_result(Some(configured_track(prior, c)), src, n, channels)
            == Err::<(u64, u32), TimelineError>(TimelineError::MissingClockMapping),
        loss.dropped_frames != 0 && !(configured_track(prior, c).last_gap_generation matches Some(g)
            && loss.generation <= g) ==> gap_result(Some(configured_track(prior, c)), loss)
            == Err::<(u64, u32), TimelineError>(TimelineError::MissingClockMapping),
{
}


/// A new configuration revision is refused exactly when the track has one
/// whose revision is not older or whose effective instant is later; taken,
/// it replaces the configuration, clears the clock and restarts gap
/// coalescing, and keeps the track's next sequence number, its last end
/// positions and its last gap generation.
pub proof fn law_configuration_keeps_position_and_clears_clock(prior: Option<TrackTimeline>, c: TrackConfigurationRevision)
    ensures
        configuration_regresses(prior, c) <==> (prior matches Some(p) && (c.revision <= p.configuration.revision
            || c.effective_at_ms < p.configuration.effective_at_ms)),
        configured_track(prior, c).configuration == c,
        configured_track(prior, c).clock is None,
        configured_track(prior, c).coalescible_gap is None,
        prior matches Some(p) ==> {
            &&& configured_track(prior, c).next_sequence == p.next_sequence
            &&& configured_track(prior, c).last_end_ms == p.last_end_ms
            &&& configured_track(prior, c).last_end_source_position_frames == p.last_end_source_position_frames
            &&& configured_track(prior, c).last_gap_generation == p.last_gap_generation
        },
        prior is None ==> configured_track(prior, c).next_sequence == 0 && configured_track(prior, c).last_end_ms is None
            && configured_track(prior, c).last_gap_generation is None,
{
}


/// One operation on a track, as the timeline receives it.
pub enum TrackEvent {
    Configure(TrackConfigurationRevision),
    MapClock(ClockMappingRevision),
    Frame { source_position_frames: u64, frame_count: u64, channels: u16 },
    Gap(LossSnapshot),
}

/// The track went from `before` to `after` by event `e` of session
/// `session` on track `track`: unchanged when the event failed (`ok`
/// false), else as the operation's contract says; `emitted` is the gap a
/// successful gap event returned.
pub open spec fn track_step(
    session: Seq<char>,
    track: Seq<char>,
    before: Option<TrackTimeline>,
    after: Option<TrackTimeline>,
    e: TrackEvent,
    ok: bool,
    emitted: AudioGap,
) -> bool {
    if !ok {
        after == before
    } else {
        match e {
            TrackEvent::Configure(c) => !configuration_regresses(before, c) && after == Some(configured_track(before, c)),
            TrackEvent::MapClock(m) => map_clock_result(before, m) is Ok && (after matches Some(t) && clock_mapped(
                t,
                before->0,
                m,
            )),
            TrackEvent::Frame { source_position_frames, frame_count, channels } => {
                &&& frame_result(before, source_position_frames, frame_count, channels) is Ok
                &&& after matches Some(t) && frame_advanced(
                    t,
                    before->0,
                    source_position_frames,
                    frame_count,
                    frame_result(before, source_position_frames, frame_count, channels)->Ok_0.0,
                    frame_result(before, source_position_frames, frame_count, channels)->Ok_0.1,
                )
            },
            TrackEvent::Gap(loss) => gap_outcome(before, after, session, track, loss, Ok::<AudioGap, TimelineError>(emitted)),
        }
    }
}

/// `ts` is the history of one track under `events`: it starts unconfigured,
/// and each event takes it one step, with outcome `oks[i]` and, for a gap,
/// the returned gap `emitted[i]`.
pub open spec fn track_history(
    session: Seq<char>,
    track: Seq<char>,
    ts: Seq<Option<TrackTimeline>>,
    events: Seq<TrackEvent>,
    oks: Seq<bool>,
    emitted: Seq<AudioGap>,
) -> bool {
    &&& ts.len() == events.len() + 1
    &&& oks.len() == events.len()
    &&& emitted.len() == events.len()
    &&& ts[0] is None
    &&& forall|i: int| 0 <= i < events.len() ==> #[trigger] track_step(session, track, ts[i], ts[i + 1], events[i], oks[i], emitted[i])
}

/// Successful frames among the first `n` events.
pub open spec fn ok_frames(events: Seq<TrackEvent>, oks: Seq<bool>, n: int) -> int
    decreases n,
{
    if n <= 0 {
        0
    } else {
        ok_frames(events, oks, n - 1) + if oks[n - 1] && events[n - 1] is Frame { 1int } else { 0int }
    }
}

/// The gap later gaps may extend after the first `n` events: the last
/// successful gap, unless a successful frame, clock mapping or
/// configuration came after it.
pub open spec fn coalescible_since(events: Seq<TrackEvent>, oks: Seq<bool>, emitted: Seq<AudioGap>, n: int) -> Option<AudioGap>
    decreases n,
{
    if n <= 0 {
        None
    } else if !oks[n - 1] {
        coalescible_since(events, oks, emitted, n - 1)
    } else if events[n - 1] is Gap {
        Some(emitted[n - 1])
    } else {
        None
    }
}

/// The next sequence number of a track, zero before it is configured.
pub open spec fn sequence_of(t: Option<TrackTimeline>) -> int {
    match t {
        Some(t) => t.next_sequence as int,
        None => 0,
    }
}

proof fn lemma_history_prefix(
    session: Seq<char>,
    track: Seq<char>,
    ts: Seq<Option<TrackTimeline>>,
    events: Seq<TrackEvent>,
    oks: Seq<bool>,
    emitted: Seq<AudioGap>,
    n: int,
)
    requires
        track_history(session, track, ts, events, oks, emitted),
        0 <= n <= events.len(),
    ensures
        sequence_of(ts[n]) == ok_frames(events, oks, n),
        ts[n] matches Some(t) ==> match coalescible_since(events, oks, emitted, n) {
            None => t.coalescible_gap is None,
            Some(p) => t.coalescible_gap matches Some(c) && same_gap(c, p),
        },
    decreases n,
{
    if n > 0 {
        let k = n - 1;
        lemma_history_prefix(session, track, ts, events, oks, emitted, k);
        assert(track_step(session, track, ts[k], ts[k + 1], events[k], oks[k], emitted[k]));
        assert(ts[k + 1] == ts[n]);
    }
}

/// A frame's sequence number counts the track's earlier frames: over any
/// history of a track, a successful frame is numbered by the number of
/// successful frames before it (its contract gives it the track's next
/// sequence number, which is that count).
pub proof fn law_frame_sequence_counts_earlier_frames(
    session: Seq<char>,
    track: Seq<char>,
    ts: Seq<Option<TrackTimeline>>,
    events: Seq<TrackEvent>,
    oks: Seq<bool>,
    emitted: Seq<AudioGap>,
)
    requires
        track_history(session, track, ts, events, oks, emitted),
    ensures
        forall|i: int| 0 <= i <= events.len() ==> sequence_of(#[trigger] ts[i]) == ok_frames(events, oks, i),
        forall|i: int| 0 <= i < events.len() && oks[i] && #[trigger] events[i] is Frame ==> ts[i] is Some
            && ts[i]->0.next_sequence == ok_frames(events, oks, i),
{
    assert forall|i: int| 0 <= i <= events.len() implies sequence_of(#[trigger] ts[i]) == ok_frames(events, oks, i) by {
        lemma_history_prefix(session, track, ts, events, oks, emitted, i);
    }
    assert forall|i: int| 0 <= i < events.len() && oks[i] && #[trigger] events[i] is Frame implies ts[i] is Some
        && ts[i]->0.next_sequence == ok_frames(events, oks, i) by {
        lemma_history_prefix(session, track, ts, events, oks, emitted, i);
        assert(track_step(session, track, ts[i], ts[i + 1], events[i], oks[i], emitted[i]));
    }
}

/// Gaps coalesce over the calls since the last frame, clock mapping or
/// configuration: a successful gap extends the last gap the track emitted
/// when no successful frame, clock mapping or configuration came between
/// them and the new loss continues it exactly (and the totals fit), giving
/// that gap with the loss's frames and duration added and the loss's
/// generation; otherwise it is the loss as it is.
pub proof fn law_gaps_coalesce_since_the_last_frame_or_revision(
    session: Seq<char>,
    track: Seq<char>,
    ts: Seq<Option<TrackTimeline>>,
    events: Seq<TrackEvent>,
    oks: Seq<bool>,
    emitted: Seq<AudioGap>,
    i: int,
    loss: LossSnapshot,
    start: u64,
    duration: u32,
)
    requires
        track_history(session, track, ts, events, oks, emitted),
        0 <= i < events.len(),
        oks[i],
        events[i] == TrackEvent::Gap(loss),
        gap_result(ts[i], loss) == Ok::<(u64, u32), TimelineError>((start, duration)),
    ensures
        (coalescible_since(events, oks, emitted, i) matches Some(p) && continues(p, session, track, loss, start)
            && p.duration_ms + duration <= u32::MAX && p.dropped_frames + loss.dropped_frames <= u64::MAX) ==> {
            let p = coalescible_since(events, oks, emitted, i)->0;
            &&& emitted[i].session_id@ == p.session_id@
            &&& emitted[i].track_id@ == p.track_id@
            &&& emitted[i].start_ms == p.start_ms
            &&& emitted[i].source_position_frames == p.source_position_frames
            &&& emitted[i].cause == p.cause
            &&& emitted[i].duration_ms == p.duration_ms + duration
            &&& emitted[i].dropped_frames == p.dropped_frames + loss.dropped_frames
            &&& emitted[i].generation == loss.generation
        },
        !(coalescible_since(events, oks, emitted, i) matches Some(p) && continues(p, session, track, loss, start))
            ==> gap_of_loss(emitted[i], session, track, loss, start, duration),
{
    lemma_history_prefix(session, track, ts, events, oks, emitted, i);
    assert(track_step(session, track, ts[i], ts[i + 1], events[i], oks[i], emitted[i]));
}

} // verus!
