//! Frame, gap and track-configuration records of the capture timeline.

use vstd::prelude::*;
use crate::clock::TimelineError;
use crate::session::{SessionId, TrackId};

verus! {

/// Why audio was dropped.
#[derive(Debug, Clone, Copy, PartialEq, Eq, Hash, Structural)]
pub enum GapCause {
    CallbackPoolExhausted,
    OversizedCallback,
    DeviceDiscontinuity,
    SinkUnavailable,
}

/// One revision of a track's configuration.
#[derive(Debug, Clone, PartialEq, Eq)]
pub struct TrackConfigurationRevision {
    pub track_id: TrackId,
    pub revision: u32,
    pub effective_at_ms: u64,
    pub sample_rate_hz: u32,
}

impl TrackConfigurationRevision {
    /// Revisions start at 1 and sample rates are positive.
    pub fn new(track_id: TrackId, revision: u32, effective_at_ms: u64, sample_rate_hz: u32) -> (r: Result<TrackConfigurationRevision, TimelineError>)
        ensures
            revision == 0 ==> r == Err::<TrackConfigurationRevision, TimelineError>(TimelineError::InvalidRevision),
            revision != 0 && sample_rate_hz == 0 ==> r == Err::<TrackConfigurationRevision, TimelineError>(TimelineError::InvalidTiming),
            r is Ok <==> revision != 0 && sample_rate_hz != 0,
            r matches Ok(c) ==> c.track_id@ == track_id@ && c.revision == revision
                && c.effective_at_ms == effective_at_ms && c.sample_rate_hz == sample_rate_hz,
    {
        if revision == 0 {
            return Err(TimelineError::InvalidRevision);
        }
        if sample_rate_hz == 0 {
            return Err(TimelineError::InvalidTiming);
        }
        Ok(TrackConfigurationRevision { track_id, revision, effective_at_ms, sample_rate_hz })
    }

    /// Copy with the same fields.
    pub fn duplicate(&self) -> (r: TrackConfigurationRevision)
        ensures
            r.track_id@ == self.track_id@,
            r.revision == self.revision,
            r.effective_at_ms == self.effective_at_ms,
            r.sample_rate_hz == self.sample_rate_hz,
            r == *self,
    {
        TrackConfigurationRevision {
            track_id: self.track_id.duplicate(),
            revision: self.revision,
            effective_at_ms: self.effective_at_ms,
            sample_rate_hz: self.sample_rate_hz,
        }
    }
}

/// Timing metadata of one captured frame.
#[derive(Debug, Clone, PartialEq, Eq)]
pub struct AudioFrame {
    pub session_id: SessionId,
    pub track_id: TrackId,
    pub sequence: u64,
    pub sample_rate_hz: u32,
    pub channels: u16,
    pub start_ms: u64,
    pub duration_ms: u32,
    pub sample_count: usize,
}

impl AudioFrame {
    /// End of the frame's interval (exclusive), saturating at `u64::MAX`.
    pub fn end_ms(&self) -> (e: u64)
        ensures
            e == if self.start_ms + self.duration_ms > u64::MAX { u64::MAX as int } else { self.start_ms + self.duration_ms },
    {
        self.start_ms.saturating_add(self.duration_ms as u64)
    }
}

/// A dropped interval of a track's audio.
#[derive(Debug, Clone, PartialEq, Eq)]
pub struct AudioGap {
    pub session_id: SessionId,
    pub track_id: TrackId,
    pub start_ms: u64,
    pub duration_ms: u32,
    pub source_position_frames: u64,
    pub dropped_frames: u64,
    pub cause: GapCause,
    pub generation: u64,
}

/// Field-wise equality of two gaps (identifiers by their characters).
pub open spec fn same_gap(a: AudioGap, b: AudioGap) -> bool {
    &&& a.session_id@ == b.session_id@
    &&& a.track_id@ == b.track_id@
    &&& a.start_ms == b.start_ms
    &&& a.duration_ms == b.duration_ms
    &&& a.source_position_frames == b.source_position_frames
    &&& a.dropped_frames == b.dropped_frames
    &&& a.cause == b.cause
    &&& a.generation == b.generation
}

/// End of a gap's interval, if it fits in `u64`.
pub open spec fn gap_end_ms(g: AudioGap) -> Option<u64> {
    if g.start_ms + g.duration_ms > u64::MAX {
        None
    } else {
        Some((g.start_ms + g.duration_ms) as u64)
    }
}

impl AudioGap {
    /// End of the gap's interval (exclusive), `None` when it overflows.
    pub fn end_ms(&self) -> (e: Option<u64>)
        ensures
            e == gap_end_ms(*self),
    {
        self.start_ms.checked_add(self.duration_ms as u64)
    }

    /// Copy with the same fields.
    pub fn duplicate(&self) -> (r: AudioGap)
        ensures
            same_gap(r, *self),
            r == *self,
    {
        AudioGap {
            session_id: self.session_id.duplicate(),
            track_id: self.track_id.duplicate(),
            start_ms: self.start_ms,
            duration_ms: self.duration_ms,
            source_position_frames: self.source_position_frames,
            dropped_frames: self.dropped_frames,
            cause: self.cause,
            generation: self.generation,
        }
    }
}

/// A frame's timing metadata with its little-endian PCM16 payload.
#[derive(Debug, Clone, PartialEq, Eq)]
pub struct PreparedFrame {
    pub metadata: AudioFrame,
    pub pcm16: Vec<u8>,
}

} // verus!
