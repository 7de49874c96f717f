//! Clock mappings from a track's source frame positions to session time.

use vstd::prelude::*;
use crate::frame::{AudioGap, PreparedFrame, TrackConfigurationRevision};
use crate::session::TrackId;

verus! {

/// Errors of the session timeline.
#[derive(Debug, Clone, Copy, PartialEq, Eq, Structural)]
pub enum TimelineError {
    InvalidRevision,
    RevisionRegression,
    MissingTrackConfiguration,
    MissingClockMapping,
    InvalidTiming,
    SequenceOverflow,
    GenerationRegression,
    DrainIncomplete,
}

/// Maps a track's source frame position to session time, from one revision on.
#[derive(Debug, Clone, PartialEq, Eq)]
pub struct ClockMappingRevision {
    pub track_id: TrackId,
    pub revision: u32,
    pub source_position_frames: u64,
    pub session_time_ms: u64,
}

impl ClockMappingRevision {
    /// Revision numbers start at 1.
    pub fn new(track_id: TrackId, revision: u32, source_position_frames: u64, session_time_ms: u64) -> (r: Result<ClockMappingRevision, TimelineError>)
        ensures
            r is Err <==> revision == 0,
            r matches Err(e) ==> e == TimelineError::InvalidRevision,
            r matches Ok(m) ==> m.track_id@ == track_id@ && m.revision == revision
                && m.source_position_frames == source_position_frames && m.session_time_ms == session_time_ms,
    {
        if revision == 0 {
            return Err(TimelineError::InvalidRevision);
        }
        Ok(ClockMappingRevision { track_id, revision, source_position_frames, session_time_ms })
    }

    /// Copy with the same fields.
    pub fn duplicate(&self) -> (r: ClockMappingRevision)
        ensures
            r.track_id@ == self.track_id@,
            r.revision == self.revision,
            r.source_position_frames == self.source_position_frames,
            r.session_time_ms == self.session_time_ms,
            r == *self,
    {
        ClockMappingRevision {
            track_id: self.track_id.duplicate(),
            revision: self.revision,
            source_position_frames: self.source_position_frames,
            session_time_ms: self.session_time_ms,
        }
    }
}

/// A configuration revision and the clock mapping that starts with it.
#[derive(Debug, Clone, PartialEq, Eq)]
pub struct RecordingRevisionTransition {
    pub configuration: TrackConfigurationRevision,
    pub clock_mapping: ClockMappingRevision,
}

/// The configuration and mapping name the same track, revision and instant.
pub open spec fn transition_consistent(c: TrackConfigurationRevision, m: ClockMappingRevision) -> bool {
    &&& c.track_id@ == m.track_id@
    &&& c.revision == m.revision
    &&& c.effective_at_ms == m.session_time_ms
}

impl RecordingRevisionTransition {
    /// Pairs a configuration with its clock mapping; they must agree on track,
    /// revision and effective instant.
    pub fn new(configuration: TrackConfigurationRevision, clock_mapping: ClockMappingRevision) -> (r: Result<RecordingRevisionTransition, TimelineError>)
        ensures
            r is Ok <==> transition_consistent(configuration, clock_mapping),
            r matches Err(e) ==> e == TimelineError::InvalidRevision,
            r matches Ok(t) ==> t.configuration == configuration && t.clock_mapping == clock_mapping,
    {
        if !configuration.track_id.same_as(&clock_mapping.track_id)
            || configuration.revision != clock_mapping.revision
            || configuration.effective_at_ms != clock_mapping.session_time_ms
        {
            return Err(TimelineError::InvalidRevision);
        }
        Ok(RecordingRevisionTransition { configuration, clock_mapping })
    }
}

/// Ordered input of the durable recording writer.
#[derive(Debug, Clone)]
pub enum RecordingInput {
    PreparedFrame(PreparedFrame),
    RevisionTransition(RecordingRevisionTransition),
    Gap(AudioGap),
}

/// Session time of source position `p` under a mapping from `origin`
/// (frames) at `base_ms`, at `rate` frames per second; `None` before the
/// mapping's origin or past `u64::MAX` milliseconds.
pub open spec fn position_ms_spec(origin: u64, base_ms: u64, rate: u32, p: int) -> Option<u64> {
    if p < origin {
        None
    } else {
        let t = base_ms + (p - origin) * 1000 / (rate as int);
        if t > u64::MAX {
            None
        } else {
            Some(t as u64)
        }
    }
}

/// The `(start, duration)` of `n` frames from position `p`, in session milliseconds.
pub open spec fn interval_ms_spec(origin: u64, base_ms: u64, rate: u32, p: int, n: int) -> Option<(u64, u32)> {
    if n == 0 || p + n > u64::MAX {
        None
    } else {
        match (position_ms_spec(origin, base_ms, rate, p), position_ms_spec(origin, base_ms, rate, p + n)) {
            (Some(start), Some(end)) => {
                if end < start || end - start > u32::MAX || end - start == 0 {
                    None
                } else {
                    Some((start, (end - start) as u32))
                }
            },
            _ => None,
        }
    }
}

/// A clock mapping bound to a positive sample rate.
#[derive(Debug)]
pub struct SessionClock {
    mapping: ClockMappingRevision,
    sample_rate_hz: u32,
}

impl SessionClock {
    #[verifier::type_invariant]
    spec fn rate_positive(self) -> bool {
        self.sample_rate_hz > 0
    }

    pub closed spec fn mapping(self) -> ClockMappingRevision {
        self.mapping
    }

    pub closed spec fn rate(self) -> u32 {
        self.sample_rate_hz
    }

    /// Session time of source position `p` under this clock.
    pub open spec fn position_of(self, p: int) -> Option<u64> {
        position_ms_spec(self.mapping().source_position_frames, self.mapping().session_time_ms, self.rate(), p)
    }

    /// Interval of `n` frames from `p` under this clock.
    pub open spec fn interval_of(self, p: int, n: int) -> Option<(u64, u32)> {
        interval_ms_spec(self.mapping().source_position_frames, self.mapping().session_time_ms, self.rate(), p, n)
    }

    /// A clock needs a positive sample rate.
    pub fn new(mapping: ClockMappingRevision, sample_rate_hz: u32) -> (r: Result<SessionClock, TimelineError>)
        ensures
            r is Err <==> sample_rate_hz == 0,
            r matches Err(e) ==> e == TimelineError::InvalidTiming,
            r matches Ok(c) ==> c.mapping() == mapping && c.rate() == sample_rate_hz,
    {
        if sample_rate_hz == 0 {
            return Err(TimelineError::InvalidTiming);
        }
        Ok(SessionClock { mapping, sample_rate_hz })
    }

    /// Copy with the same mapping and rate.
    pub fn duplicate(&self) -> (r: SessionClock)
        ensures
            r.mapping().track_id@ == self.mapping().track_id@,
            r.mapping().revision == self.mapping().revision,
            r.mapping().source_position_frames == self.mapping().source_position_frames,
            r.mapping().session_time_ms == self.mapping().session_time_ms,
            r.rate() == self.rate(),
            r.interval_of_eq(*self),
    {
        proof {
            use_type_invariant(self);
        }
        SessionClock { mapping: self.mapping.duplicate(), sample_rate_hz: self.sample_rate_hz }
    }

    /// Both clocks map positions identically.
    pub open spec fn interval_of_eq(self, other: SessionClock) -> bool {
        &&& self.mapping().source_position_frames == other.mapping().source_position_frames
        &&& self.mapping().session_time_ms == other.mapping().session_time_ms
        &&& self.rate() == other.rate()
    }

    pub fn mapping_revision(&self) -> (r: u32)
        ensures
            r == self.mapping().revision,
    {
        self.mapping.revision
    }

    /// The `(start, duration)` in session milliseconds of `frame_count`
    /// frames from `source_position_frames`; end-exclusive, so consecutive
    /// runs meet exactly, and never empty.
    pub fn interval_ms(&self, source_position_frames: u64, frame_count: u64) -> (r: Result<(u64, u32), TimelineError>)
        ensures
            r is Ok <==> self.interval_of(source_position_frames as int, frame_count as int) is Some,
            r matches Ok(iv) ==> Some(iv) == self.interval_of(source_position_frames as int, frame_count as int),
            r matches Err(e) ==> e == TimelineError::InvalidTiming,
    {
        if frame_count == 0 {
            return Err(TimelineError::InvalidTiming);
        }
        let end_source_position = match source_position_frames.checked_add(frame_count) {
            Some(end) => end,
            None => return Err(TimelineError::InvalidTiming),
        };
        let start_ms = self.position_ms(source_position_frames)?;
        let end_ms = self.position_ms(end_source_position)?;
        if end_ms < start_ms {
            return Err(TimelineError::InvalidTiming);
        }
        let duration = end_ms - start_ms;
        if duration > u32::MAX as u64 || duration == 0 {
            return Err(TimelineError::InvalidTiming);
        }
        Ok((start_ms, duration as u32))
    }

    fn position_ms(&self, source_position_frames: u64) -> (r: Result<u64, TimelineError>)
        ensures
            r is Ok <==> self.position_of(source_position_frames as int) is Some,
            r matches Ok(t) ==> Some(t) == self.position_of(source_position_frames as int),
            r matches Err(e) ==> e == TimelineError::InvalidTiming,
    {
        proof {
            use_type_invariant(self);
        }
        if source_position_frames < self.mapping.source_position_frames {
            return Err(TimelineError::InvalidTiming);
        }
        let relative_frames = source_position_frames - self.mapping.source_position_frames;
        assert((relative_frames as u128) * 1000 <= u128::MAX) by (nonlinear_arith)
            requires
                relative_frames <= u64::MAX,
        ;
        let relative_ms: u128 = (relative_frames as u128) * 1000 / (self.sample_rate_hz as u128);
        let session_time_ms: u128 = (self.mapping.session_time_ms as u128) + relative_ms;
        if session_time_ms > u64::MAX as u128 {
            return Err(TimelineError::InvalidTiming);
        }
        Ok(session_time_ms as u64)
    }
}


pub open spec fn interval_start(iv: (u64, u32)) -> int {
    iv.0 as int
}

pub open spec fn interval_end(iv: (u64, u32)) -> int {
    iv.0 + iv.1
}

/// Consecutive runs of frames meet exactly in session time: the interval of
/// `n` frames from `p` ends where the interval of the next `m` frames
/// begins, so per-frame rounding never accumulates drift or overlap.
pub proof fn law_consecutive_intervals_meet(clock: SessionClock, p: int, n: int, m: int)
    requires
        clock.interval_of(p, n) is Some,
        clock.interval_of(p + n, m) is Some,
    ensures
        interval_end(clock.interval_of(p, n)->0) == interval_start(clock.interval_of(p + n, m)->0),
{
}

/// Session time never runs backwards along the source position.
pub proof fn law_position_is_monotonic(clock: SessionClock, p: int, q: int)
    requires
        clock.rate() > 0,
        p <= q,
        clock.position_of(p) is Some,
        clock.position_of(q) is Some,
    ensures
        clock.position_of(p)->0 <= clock.position_of(q)->0,
{
    let o = clock.mapping().source_position_frames as int;
    let r = clock.rate() as int;
    assert((p - o) * 1000 / r <= (q - o) * 1000 / r) by (nonlinear_arith)
        requires
            o <= p <= q,
            r > 0,
    ;
}

} // verus!
