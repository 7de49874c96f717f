//! Validation of the timeline and sequence metadata a capture sidecar (or a
//! replayed journal) carries, before a recording is trusted as complete.

use vstd::prelude::*;
use crate::clock::{ClockMappingRevision, SessionClock, interval_ms_spec};
use crate::frame::{AudioGap, TrackConfigurationRevision, gap_end_ms};
use crate::journal::{
    JournalTrack, SequenceCoverage, SequenceGap, SequenceGapOverflow, MAX_SEQUENCE_GAP_DETAILS,
    MAX_TIMELINE_CONTROL_EVENTS, first_index_from, last_index_before, lemma_first_index_from,
    lemma_last_index_before,
};
use crate::session::{SessionId, TrackId};
use crate::wav::WAV_HEADER_BYTES;
use crate::text::same_text;

verus! {

/// Every recorded track has a rate and channels, and no track appears twice.
pub open spec fn tracks_ok(tracks: Seq<JournalTrack>) -> bool {
    &&& forall|i: int| 0 <= i < tracks.len() ==> (#[trigger] tracks[i]).sample_rate_hz != 0 && tracks[i].channels != 0
    &&& forall|i: int, j: int| 0 <= i < j < tracks.len() ==> (#[trigger] tracks[i]).track_id@ != (#[trigger] tracks[j]).track_id@
}

/// Whether a configuration names track `t`.
pub open spec fn configured(configs: Seq<TrackConfigurationRevision>, t: Seq<char>) -> bool {
    exists|k: int| 0 <= k < configs.len() && (#[trigger] configs[k]).track_id@ == t
}

/// Whether a clock mapping names track `t`.
pub open spec fn mapped(mappings: Seq<ClockMappingRevision>, t: Seq<char>) -> bool {
    exists|k: int| 0 <= k < mappings.len() && (#[trigger] mappings[k]).track_id@ == t
}

/// The previous configuration of the same track as configuration `i`.
pub open spec fn previous_configuration(configs: Seq<TrackConfigurationRevision>, i: int) -> Option<int> {
    last_index_before(i, |k: int| configs[k].track_id@ == configs[i].track_id@)
}

/// Configuration `i` is the next revision of its track (starting at 1), not
/// earlier than the previous one, with a positive sample rate.
pub open spec fn config_ok(configs: Seq<TrackConfigurationRevision>, i: int) -> bool {
    let c = configs[i];
    &&& c.revision != 0
    &&& c.sample_rate_hz != 0
    &&& match previous_configuration(configs, i) {
        Some(p) => configs[p].revision + 1 == c.revision && c.effective_at_ms >= configs[p].effective_at_ms,
        None => c.revision == 1,
    }
}

/// The configuration of track `t` at revision `revision`.
pub open spec fn config_for_revision(configs: Seq<TrackConfigurationRevision>, t: Seq<char>, revision: u32) -> Option<int> {
    first_index_from(0, configs.len() as int, |k: int| configs[k].track_id@ == t && configs[k].revision == revision)
}

/// The previous clock mapping of the same track as mapping `i`.
pub open spec fn previous_mapping(mappings: Seq<ClockMappingRevision>, i: int) -> Option<int> {
    last_index_before(i, |k: int| mappings[k].track_id@ == mappings[i].track_id@)
}

/// Mapping `i` belongs to a configured track, starts exactly when the
/// configuration revision of the same number took effect, and is the next
/// revision of its track (from 1) without going back in source or time.
pub open spec fn mapping_ok(configs: Seq<TrackConfigurationRevision>, mappings: Seq<ClockMappingRevision>, i: int) -> bool {
    let m = mappings[i];
    &&& configured(configs, m.track_id@)
    &&& m.revision != 0
    &&& match config_for_revision(configs, m.track_id@, m.revision) {
        None => false,
        Some(k) => {
            &&& configs[k].effective_at_ms == m.session_time_ms
            &&& match previous_mapping(mappings, i) {
                Some(p) => mappings[p].revision + 1 == m.revision
                    && m.source_position_frames >= mappings[p].source_position_frames
                    && m.session_time_ms >= mappings[p].session_time_ms,
                None => m.revision == 1,
            }
        },
    }
}

/// The last configuration of its track has a clock mapping of the same revision
/// as the track's last mapping.
pub open spec fn latest_config_mapped(configs: Seq<TrackConfigurationRevision>, mappings: Seq<ClockMappingRevision>, i: int) -> bool {
    (forall|j: int| i < j < configs.len() ==> (#[trigger] configs[j]).track_id@ != configs[i].track_id@)
        ==> match last_index_before(mappings.len() as int, |k: int| mappings[k].track_id@ == configs[i].track_id@) {
            Some(p) => mappings[p].revision == configs[i].revision,
            None => false,
        }
}

/// The clock mapping that applies at the gap's source position.
pub open spec fn applicable_mapping(mappings: Seq<ClockMappingRevision>, g: AudioGap) -> Option<int> {
    last_index_before(
        mappings.len() as int,
        |k: int| mappings[k].track_id@ == g.track_id@ && mappings[k].source_position_frames <= g.source_position_frames,
    )
}

/// The next clock mapping of the gap's track after mapping `k`.
pub open spec fn next_mapping(mappings: Seq<ClockMappingRevision>, k: int, g: AudioGap) -> Option<int> {
    first_index_from(k + 1, mappings.len() as int, |j: int| mappings[j].track_id@ == g.track_id@)
}

/// The previous gap of the same track as gap `i`.
pub open spec fn previous_gap(gaps: Seq<AudioGap>, i: int) -> Option<int> {
    last_index_before(i, |j: int| gaps[j].track_id@ == gaps[i].track_id@)
}

/// Gap `i` belongs to the session and a configured track, is nonempty and
/// within range, is exactly the interval its applicable clock revision gives
/// its source frames, does not cross into the next revision, and follows its
/// track's previous gap later in generation, time and source without being a
/// contiguous same-cause continuation of it.
pub open spec fn gap_ok(
    session: Seq<char>,
    configs: Seq<TrackConfigurationRevision>,
    mappings: Seq<ClockMappingRevision>,
    gaps: Seq<AudioGap>,
    i: int,
) -> bool {
    let g = gaps[i];
    &&& g.session_id@ == session
    &&& configured(configs, g.track_id@)
    &&& g.duration_ms != 0
    &&& g.dropped_frames != 0
    &&& gap_end_ms(g) is Some
    &&& g.source_position_frames + g.dropped_frames <= u64::MAX
    &&& match applicable_mapping(mappings, g) {
        None => false,
        Some(k) => {
            let m = mappings[k];
            match config_for_revision(configs, m.track_id@, m.revision) {
                None => false,
                Some(c) => {
                    &&& configs[c].sample_rate_hz > 0
                    &&& interval_ms_spec(
                        m.source_position_frames,
                        m.session_time_ms,
                        configs[c].sample_rate_hz,
                        g.source_position_frames as int,
                        g.dropped_frames as int,
                    ) == Some((g.start_ms, g.duration_ms))
                    &&& match next_mapping(mappings, k, g) {
                        Some(n) => g.source_position_frames + g.dropped_frames <= mappings[n].source_position_frames
                            && g.start_ms + g.duration_ms <= mappings[n].session_time_ms,
                        None => true,
                    }
                    &&& match previous_gap(gaps, i) {
                        Some(p) => {
                            let prev = gaps[p];
                            &&& g.generation > prev.generation
                            &&& g.start_ms >= prev.start_ms + prev.duration_ms
                            &&& g.source_position_frames >= prev.source_position_frames + prev.dropped_frames
                            &&& !(g.start_ms == prev.start_ms + prev.duration_ms
                                && g.source_position_frames == prev.source_position_frames + prev.dropped_frames
                                && g.cause == prev.cause)
                        },
                        None => true,
                    }
                },
            }
        },
    }
}

/// The timeline metadata of a recording hold together.
pub open spec fn timeline_metadata_valid(
    session: Seq<char>,
    tracks: Seq<JournalTrack>,
    configs: Seq<TrackConfigurationRevision>,
    mappings: Seq<ClockMappingRevision>,
    gaps: Seq<AudioGap>,
) -> bool {
    &&& configs.len() <= MAX_TIMELINE_CONTROL_EVENTS
    &&& mappings.len() <= MAX_TIMELINE_CONTROL_EVENTS
    &&& gaps.len() <= MAX_TIMELINE_CONTROL_EVENTS
    &&& tracks_ok(tracks)
    &&& forall|i: int| 0 <= i < configs.len() ==> #[trigger] config_ok(configs, i)
    &&& forall|i: int| 0 <= i < mappings.len() ==> #[trigger] mapping_ok(configs, mappings, i)
    &&& forall|i: int| 0 <= i < tracks.len()
        ==> configured(configs, (#[trigger] tracks[i]).track_id@) && mapped(mappings, tracks[i].track_id@)
    &&& forall|i: int| 0 <= i < configs.len() ==> #[trigger] latest_config_mapped(configs, mappings, i)
    &&& forall|i: int| 0 <= i < gaps.len() ==> #[trigger] gap_ok(session, configs, mappings, gaps, i)
}

/// Why configuration `i` is refused, when it is.
pub open spec fn config_refusal(configs: Seq<TrackConfigurationRevision>, i: int) -> Seq<char> {
    if configs[i].revision == 0 || configs[i].sample_rate_hz == 0 {
        "recording track configuration is invalid"@
    } else {
        "recording track configuration revisions are not contiguous"@
    }
}

/// Why clock mapping `i` is refused, when it is.
pub open spec fn mapping_refusal(
    configs: Seq<TrackConfigurationRevision>,
    mappings: Seq<ClockMappingRevision>,
    i: int,
) -> Seq<char> {
    let m = mappings[i];
    if !configured(configs, m.track_id@) || m.revision == 0 {
        "recording clock mapping has no valid track configuration"@
    } else {
        match config_for_revision(configs, m.track_id@, m.revision) {
            None => "recording clock mapping has no matching configuration revision"@,
            Some(k) => if configs[k].effective_at_ms != m.session_time_ms {
                "recording revision transition timestamp does not match"@
            } else {
                "recording clock mapping revisions are not contiguous"@
            },
        }
    }
}

/// The refusal of a gap that cannot be placed on its clock revision.
pub open spec fn gap_conversion_text() -> Seq<char> {
    "recording timeline gap clock conversion failed"@
}

/// Why gap `i` is refused, when it is.
pub open spec fn gap_refusal(
    session: Seq<char>,
    configs: Seq<TrackConfigurationRevision>,
    mappings: Seq<ClockMappingRevision>,
    gaps: Seq<AudioGap>,
    i: int,
) -> Seq<char> {
    let g = gaps[i];
    if !(g.session_id@ == session && configured(configs, g.track_id@) && g.duration_ms != 0 && g.dropped_frames != 0) {
        "recording timeline gap is invalid"@
    } else if gap_end_ms(g) is None {
        "recording timeline gap end overflowed"@
    } else if g.source_position_frames + g.dropped_frames > u64::MAX {
        "recording timeline gap source range overflowed"@
    } else if !mapped(mappings, g.track_id@) {
        "recording timeline gap has no clock revisions"@
    } else {
        match applicable_mapping(mappings, g) {
            None => "recording timeline gap precedes its first clock revision"@,
            Some(k) => {
                let m = mappings[k];
                match config_for_revision(configs, m.track_id@, m.revision) {
                    None => gap_conversion_text(),
                    Some(c) => if configs[c].sample_rate_hz == 0 {
                        gap_conversion_text()
                    } else {
                        match interval_ms_spec(
                            m.source_position_frames,
                            m.session_time_ms,
                            configs[c].sample_rate_hz,
                            g.source_position_frames as int,
                            g.dropped_frames as int,
                        ) {
                            None => gap_conversion_text(),
                            Some(iv) => if iv != (g.start_ms, g.duration_ms) {
                                "recording timeline gap does not match its clock revision"@
                            } else if next_mapping(mappings, k, g) matches Some(n) && (g.source_position_frames
                                + g.dropped_frames > mappings[n].source_position_frames || g.start_ms
                                + g.duration_ms > mappings[n].session_time_ms) {
                                "recording timeline gap crosses a clock revision"@
                            } else if previous_gap(gaps, i) matches Some(p) && (g.generation <= gaps[p].generation
                                || g.start_ms < gaps[p].start_ms + gaps[p].duration_ms || g.source_position_frames
                                < gaps[p].source_position_frames + gaps[p].dropped_frames) {
                                "recording timeline gaps are not monotonic"@
                            } else {
                                "recording timeline contains an uncoalesced contiguous gap"@
                            },
                        }
                    },
                }
            },
        }
    }
}

/// `e` is the refusal of timeline metadata that do not hold together: the
/// checks run in turn (bounds, tracks, each configuration, each clock
/// mapping, track coverage, the latest configurations, each gap), and the
/// first that fails, at the first item where it fails, gives the text.
pub open spec fn timeline_refusal(
    session: Seq<char>,
    tracks: Seq<JournalTrack>,
    configs: Seq<TrackConfigurationRevision>,
    mappings: Seq<ClockMappingRevision>,
    gaps: Seq<AudioGap>,
    e: Seq<char>,
) -> bool {
    if configs.len() > MAX_TIMELINE_CONTROL_EVENTS || mappings.len() > MAX_TIMELINE_CONTROL_EVENTS
        || gaps.len() > MAX_TIMELINE_CONTROL_EVENTS {
        e == "recording timeline metadata exceeds its fixed bound"@
    } else if !tracks_ok(tracks) {
        e == "recording track metadata is invalid"@
    } else if !(forall|i: int| 0 <= i < configs.len() ==> #[trigger] config_ok(configs, i)) {
        exists|i: int| {
            &&& 0 <= i < configs.len()
            &&& forall|k: int| 0 <= k < i ==> #[trigger] config_ok(configs, k)
            &&& !#[trigger] config_ok(configs, i)
            &&& e == config_refusal(configs, i)
        }
    } else if !(forall|i: int| 0 <= i < mappings.len() ==> #[trigger] mapping_ok(configs, mappings, i)) {
        exists|i: int| {
            &&& 0 <= i < mappings.len()
            &&& forall|k: int| 0 <= k < i ==> #[trigger] mapping_ok(configs, mappings, k)
            &&& !#[trigger] mapping_ok(configs, mappings, i)
            &&& e == mapping_refusal(configs, mappings, i)
        }
    } else if !(forall|i: int| 0 <= i < tracks.len()
        ==> configured(configs, (#[trigger] tracks[i]).track_id@) && mapped(mappings, tracks[i].track_id@)) {
        e == "recording track has no complete coordinator revision coverage"@
    } else if !(forall|i: int| 0 <= i < configs.len() ==> #[trigger] latest_config_mapped(configs, mappings, i)) {
        e == "recording track configuration has no matching clock mapping"@
    } else {
        exists|i: int| {
            &&& 0 <= i < gaps.len()
            &&& forall|k: int| 0 <= k < i ==> #[trigger] gap_ok(session, configs, mappings, gaps, k)
            &&& !#[trigger] gap_ok(session, configs, mappings, gaps, i)
            &&& e == gap_refusal(session, configs, mappings, gaps, i)
        }
    }
}

fn check_tracks(tracks: &Vec<JournalTrack>) -> (r: bool)
    ensures
        r == tracks_ok(tracks@),
{
    let mut i: usize = 0;
    while i < tracks.len()
        invariant
            i <= tracks.len(),
            forall|a: int| 0 <= a < i ==> (#[trigger] tracks@[a]).sample_rate_hz != 0 && tracks@[a].channels != 0,
            forall|a: int, b: int| 0 <= a < b < i ==> (#[trigger] tracks@[a]).track_id@ != (#[trigger] tracks@[b]).track_id@,
        decreases tracks.len() - i,
    {
        if tracks[i].sample_rate_hz == 0 || tracks[i].channels == 0 {
            return false;
        }
        let mut j: usize = 0;
        while j < i
            invariant
                j <= i < tracks.len(),
                forall|a: int| 0 <= a < j ==> (#[trigger] tracks@[a]).track_id@ != tracks@[i as int].track_id@,
            decreases i - j,
        {
            if same_text(tracks[j].track_id.as_str(), tracks[i].track_id.as_str()) {
                return false;
            }
            j = j + 1;
        }
        i = i + 1;
    }
    true
}

fn find_configured(configs: &Vec<TrackConfigurationRevision>, t: &TrackId) -> (r: bool)
    ensures
        r == configured(configs@, t@),
{
    let mut i: usize = 0;
    while i < configs.len()
        invariant
            i <= configs.len(),
            forall|k: int| 0 <= k < i ==> (#[trigger] configs@[k]).track_id@ != t@,
        decreases configs.len() - i,
    {
        if configs[i].track_id.same_as(t) {
            return true;
        }
        i = i + 1;
    }
    false
}

fn find_configured_text(configs: &Vec<TrackConfigurationRevision>, t: &str) -> (r: bool)
    ensures
        r == configured(configs@, t@),
{
    let mut i: usize = 0;
    while i < configs.len()
        invariant
            i <= configs.len(),
            forall|k: int| 0 <= k < i ==> (#[trigger] configs@[k]).track_id@ != t@,
        decreases configs.len() - i,
    {
        if same_text(configs[i].track_id.as_str(), t) {
            return true;
        }
        i = i + 1;
    }
    false
}

fn find_mapped_text(mappings: &Vec<ClockMappingRevision>, t: &str) -> (r: bool)
    ensures
        r == mapped(mappings@, t@),
{
    let mut i: usize = 0;
    while i < mappings.len()
        invariant
            i <= mappings.len(),
            forall|k: int| 0 <= k < i ==> (#[trigger] mappings@[k]).track_id@ != t@,
        decreases mappings.len() - i,
    {
        if same_text(mappings[i].track_id.as_str(), t) {
            return true;
        }
        i = i + 1;
    }
    false
}

fn find_previous_configuration(configs: &Vec<TrackConfigurationRevision>, i: usize) -> (r: Option<usize>)
    requires
        i < configs.len(),
    ensures
        match r {
            Some(p) => previous_configuration(configs@, i as int) == Some(p as int),
            None => previous_configuration(configs@, i as int) is None,
        },
        r matches Some(p) ==> p < i,
{
    let ghost pred = |k: int| configs@[k].track_id@ == configs@[i as int].track_id@;
    proof {
        lemma_last_index_before(i as int, pred);
    }
    let mut k: usize = i;
    while k > 0
        invariant
            k <= i < configs.len(),
            pred == (|k: int| configs@[k].track_id@ == configs@[i as int].track_id@),
            last_index_before(i as int, pred) == last_index_before(k as int, pred),
        decreases k,
    {
        if configs[k - 1].track_id.same_as(&configs[i].track_id) {
            return Some(k - 1);
        }
        k = k - 1;
    }
    None
}

fn check_config(configs: &Vec<TrackConfigurationRevision>, i: usize) -> (r: Result<(), String>)
    requires
        i < configs.len(),
    ensures
        r is Ok <==> config_ok(configs@, i as int),
        r matches Err(e) ==> e@ == config_refusal(configs@, i as int),
{
    let c = &configs[i];
    if c.revision == 0 || c.sample_rate_hz == 0 {
        return Err(String::from_str("recording track configuration is invalid"));
    }
    let contiguous = match find_previous_configuration(configs, i) {
        Some(p) => {
            let previous = &configs[p];
            previous.revision.checked_add(1) == Some(c.revision) && c.effective_at_ms >= previous.effective_at_ms
        },
        None => c.revision == 1,
    };
    if contiguous {
        Ok(())
    } else {
        Err(String::from_str("recording track configuration revisions are not contiguous"))
    }
}

fn find_config_for_revision(configs: &Vec<TrackConfigurationRevision>, t: &TrackId, revision: u32) -> (r: Option<usize>)
    ensures
        match r {
            Some(k) => config_for_revision(configs@, t@, revision) == Some(k as int),
            None => config_for_revision(configs@, t@, revision) is None,
        },
        r matches Some(k) ==> k < configs.len(),
{
    let ghost pred = |k: int| configs@[k].track_id@ == t@ && configs@[k].revision == revision;
    proof {
        lemma_first_index_from(0, configs@.len() as int, pred);
    }
    let mut k: usize = 0;
    while k < configs.len()
        invariant
            k <= configs.len(),
            pred == (|k: int| configs@[k].track_id@ == t@ && configs@[k].revision == revision),
            first_index_from(0, configs@.len() as int, pred) == first_index_from(k as int, configs@.len() as int, pred),
        decreases configs.len() - k,
    {
        if configs[k].track_id.same_as(t) && configs[k].revision == revision {
            return Some(k);
        }
        k = k + 1;
    }
    None
}

fn find_previous_mapping(mappings: &Vec<ClockMappingRevision>, i: usize) -> (r: Option<usize>)
    requires
        i < mappings.len(),
    ensures
        match r {
            Some(p) => previous_mapping(mappings@, i as int) == Some(p as int),
            None => previous_mapping(mappings@, i as int) is None,
        },
        r matches Some(p) ==> p < i,
{
    let ghost pred = |k: int| mappings@[k].track_id@ == mappings@[i as int].track_id@;
    proof {
        lemma_last_index_before(i as int, pred);
    }
    let mut k: usize = i;
    while k > 0
        invariant
            k <= i < mappings.len(),
            pred == (|k: int| mappings@[k].track_id@ == mappings@[i as int].track_id@),
            last_index_before(i as int, pred) == last_index_before(k as int, pred),
        decreases k,
    {
        if mappings[k - 1].track_id.same_as(&mappings[i].track_id) {
            return Some(k - 1);
        }
        k = k - 1;
    }
    None
}

fn check_mapping(configs: &Vec<TrackConfigurationRevision>, mappings: &Vec<ClockMappingRevision>, i: usize) -> (r: Result<(), String>)
    requires
        i < mappings.len(),
    ensures
        r is Ok <==> mapping_ok(configs@, mappings@, i as int),
        r matches Err(e) ==> e@ == mapping_refusal(configs@, mappings@, i as int),
{
    let m = &mappings[i];
    if !find_configured(configs, &m.track_id) || m.revision == 0 {
        return Err(String::from_str("recording clock mapping has no valid track configuration"));
    }
    let k = match find_config_for_revision(configs, &m.track_id, m.revision) {
        Some(k) => k,
        None => return Err(String::from_str("recording clock mapping has no matching configuration revision")),
    };
    if configs[k].effective_at_ms != m.session_time_ms {
        return Err(String::from_str("recording revision transition timestamp does not match"));
    }
    let contiguous = match find_previous_mapping(mappings, i) {
        Some(p) => {
            let previous = &mappings[p];
            previous.revision.checked_add(1) == Some(m.revision)
                && m.source_position_frames >= previous.source_position_frames
                && m.session_time_ms >= previous.session_time_ms
        },
        None => m.revision == 1,
    };
    if contiguous {
        Ok(())
    } else {
        Err(String::from_str("recording clock mapping revisions are not contiguous"))
    }
}

fn find_mapped(mappings: &Vec<ClockMappingRevision>, t: &TrackId) -> (r: bool)
    ensures
        r == mapped(mappings@, t@),
{
    let mut i: usize = 0;
    while i < mappings.len()
        invariant
            i <= mappings.len(),
            forall|k: int| 0 <= k < i ==> (#[trigger] mappings@[k]).track_id@ != t@,
        decreases mappings.len() - i,
    {
        if mappings[i].track_id.same_as(t) {
            return true;
        }
        i = i + 1;
    }
    false
}

fn check_latest_config_mapped(configs: &Vec<TrackConfigurationRevision>, mappings: &Vec<ClockMappingRevision>, i: usize) -> (r: bool)
    requires
        i < configs.len(),
    ensures
        r == latest_config_mapped(configs@, mappings@, i as int),
{
    let t = &configs[i].track_id;
    let mut j: usize = i + 1;
    while j < configs.len()
        invariant
            i < j <= configs.len(),
            t@ == configs@[i as int].track_id@,
            forall|k: int| i < k < j ==> (#[trigger] configs@[k]).track_id@ != t@,
        decreases configs.len() - j,
    {
        if configs[j].track_id.same_as(t) {
            return true;
        }
        j = j + 1;
    }
    let ghost pred = |k: int| mappings@[k].track_id@ == configs@[i as int].track_id@;
    proof {
        lemma_last_index_before(mappings@.len() as int, pred);
    }
    let mut k: usize = mappings.len();
    while k > 0
        invariant
            k <= mappings.len(),
            i < configs.len(),
            t@ == configs@[i as int].track_id@,
            forall|j: int| i < j < configs.len() ==> (#[trigger] configs@[j]).track_id@ != t@,
            pred == (|k: int| mappings@[k].track_id@ == configs@[i as int].track_id@),
            last_index_before(mappings@.len() as int, pred) == last_index_before(k as int, pred),
        decreases k,
    {
        if mappings[k - 1].track_id.same_as(t) {
            return mappings[k - 1].revision == configs[i].revision;
        }
        k = k - 1;
    }
    false
}

fn find_applicable_mapping(mappings: &Vec<ClockMappingRevision>, g: &AudioGap) -> (r: Option<usize>)
    ensures
        match r {
            Some(k) => applicable_mapping(mappings@, *g) == Some(k as int),
            None => applicable_mapping(mappings@, *g) is None,
        },
        r matches Some(k) ==> k < mappings.len(),
{
    let ghost pred = |k: int| mappings@[k].track_id@ == g.track_id@ && mappings@[k].source_position_frames <= g.source_position_frames;
    proof {
        lemma_last_index_before(mappings@.len() as int, pred);
    }
    let mut k: usize = mappings.len();
    while k > 0
        invariant
            k <= mappings.len(),
            pred == (|k: int| mappings@[k].track_id@ == g.track_id@ && mappings@[k].source_position_frames <= g.source_position_frames),
            last_index_before(mappings@.len() as int, pred) == last_index_before(k as int, pred),
        decreases k,
    {
        if mappings[k - 1].track_id.same_as(&g.track_id) && mappings[k - 1].source_position_frames <= g.source_position_frames {
            return Some(k - 1);
        }
        k = k - 1;
    }
    None
}

fn find_next_mapping(mappings: &Vec<ClockMappingRevision>, k: usize, g: &AudioGap) -> (r: Option<usize>)
    requires
        k < mappings.len(),
    ensures
        match r {
            Some(n) => next_mapping(mappings@, k as int, *g) == Some(n as int),
            None => next_mapping(mappings@, k as int, *g) is None,
        },
        r matches Some(n) ==> n < mappings.len(),
{
    let ghost pred = |j: int| mappings@[j].track_id@ == g.track_id@;
    proof {
        lemma_first_index_from(k + 1, mappings@.len() as int, pred);
    }
    let mut j: usize = k + 1;
    while j < mappings.len()
        invariant
            k < j <= mappings.len(),
            pred == (|j: int| mappings@[j].track_id@ == g.track_id@),
            first_index_from(k + 1, mappings@.len() as int, pred) == first_index_from(j as int, mappings@.len() as int, pred),
        decreases mappings.len() - j,
    {
        if mappings[j].track_id.same_as(&g.track_id) {
            return Some(j);
        }
        j = j + 1;
    }
    None
}

fn find_previous_gap(gaps: &Vec<AudioGap>, i: usize) -> (r: Option<usize>)
    requires
        i < gaps.len(),
    ensures
        match r {
            Some(p) => previous_gap(gaps@, i as int) == Some(p as int),
            None => previous_gap(gaps@, i as int) is None,
        },
        r matches Some(p) ==> p < i,
{
    let ghost pred = |j: int| gaps@[j].track_id@ == gaps@[i as int].track_id@;
    proof {
        lemma_last_index_before(i as int, pred);
    }
    let mut k: usize = i;
    while k > 0
        invariant
            k <= i < gaps.len(),
            pred == (|j: int| gaps@[j].track_id@ == gaps@[i as int].track_id@),
            last_index_before(i as int, pred) == last_index_before(k as int, pred),
        decreases k,
    {
        if gaps[k - 1].track_id.same_as(&gaps[i].track_id) {
            return Some(k - 1);
        }
        k = k - 1;
    }
    None
}

fn check_gap(
    session_id: &SessionId,
    configs: &Vec<TrackConfigurationRevision>,
    mappings: &Vec<ClockMappingRevision>,
    gaps: &Vec<AudioGap>,
    i: usize,
) -> (r: Result<(), String>)
    requires
        i < gaps.len(),
    ensures
        r is Ok <==> gap_ok(session_id@, configs@, mappings@, gaps@, i as int),
        r matches Err(e) ==> e@ == gap_refusal(session_id@, configs@, mappings@, gaps@, i as int),
{
    let g = &gaps[i];
    if !g.session_id.same_as(session_id) || !find_configured(configs, &g.track_id)
        || g.duration_ms == 0 || g.dropped_frames == 0 {
        return Err(String::from_str("recording timeline gap is invalid"));
    }
    let end_ms = match g.end_ms() {
        Some(end) => end,
        None => return Err(String::from_str("recording timeline gap end overflowed")),
    };
    let end_source = match g.source_position_frames.checked_add(g.dropped_frames) {
        Some(end) => end,
        None => return Err(String::from_str("recording timeline gap source range overflowed")),
    };
    if !find_mapped(mappings, &g.track_id) {
        proof {
            lemma_last_index_before(
                mappings@.len() as int,
                |k: int| mappings@[k].track_id@ == g.track_id@ && mappings@[k].source_position_frames <= g.source_position_frames,
            );
        }
        return Err(String::from_str("recording timeline gap has no clock revisions"));
    }
    let k = match find_applicable_mapping(mappings, g) {
        Some(k) => k,
        None => return Err(String::from_str("recording timeline gap precedes its first clock revision")),
    };
    let mapping = &mappings[k];
    let c = match find_config_for_revision(configs, &mapping.track_id, mapping.revision) {
        Some(c) => c,
        None => return Err(String::from_str("recording timeline gap clock conversion failed")),
    };
    let clock = match SessionClock::new(mapping.duplicate(), configs[c].sample_rate_hz) {
        Ok(clock) => clock,
        Err(_) => return Err(String::from_str("recording timeline gap clock conversion failed")),
    };
    match clock.interval_ms(g.source_position_frames, g.dropped_frames) {
        Ok((start, duration)) => {
            if start != g.start_ms || duration != g.duration_ms {
                return Err(String::from_str("recording timeline gap does not match its clock revision"));
            }
        },
        Err(_) => return Err(String::from_str("recording timeline gap clock conversion failed")),
    }
    match find_next_mapping(mappings, k, g) {
        Some(n) => {
            if end_source > mappings[n].source_position_frames || end_ms > mappings[n].session_time_ms {
                return Err(String::from_str("recording timeline gap crosses a clock revision"));
            }
        },
        None => {},
    }
    match find_previous_gap(gaps, i) {
        Some(p) => {
            let prev = &gaps[p];
            let prev_end_ms = match prev.end_ms() {
                Some(end) => end,
                None => return Err(String::from_str("recording timeline gaps are not monotonic")),
            };
            let prev_end_source = match prev.source_position_frames.checked_add(prev.dropped_frames) {
                Some(end) => end,
                None => return Err(String::from_str("recording timeline gaps are not monotonic")),
            };
            if g.generation <= prev.generation || g.start_ms < prev_end_ms || g.source_position_frames < prev_end_source {
                return Err(String::from_str("recording timeline gaps are not monotonic"));
            }
            if g.start_ms == prev_end_ms && g.source_position_frames == prev_end_source && g.cause == prev.cause {
                return Err(String::from_str("recording timeline contains an uncoalesced contiguous gap"));
            }
            Ok(())
        },
        None => Ok(()),
    }
}

/// Checks that a recording's timeline metadata hold together: bounded event
/// lists, well-formed unique tracks, contiguous configuration and clock
/// revisions per track that agree with each other, full revision coverage of
/// every recorded track, and gaps that are exactly what their clock revision
/// gives and are ordered per track.
pub fn validate_timeline_control_metadata(
    session_id: &SessionId,
    tracks: &Vec<JournalTrack>,
    track_configurations: &Vec<TrackConfigurationRevision>,
    clock_mappings: &Vec<ClockMappingRevision>,
    timeline_gaps: &Vec<AudioGap>,
) -> (r: Result<(), String>)
    ensures
        r is Ok <==> timeline_metadata_valid(
            session_id@,
            tracks@,
            track_configurations@,
            clock_mappings@,
            timeline_gaps@,
        ),
        r matches Err(e) ==> timeline_refusal(
            session_id@,
            tracks@,
            track_configurations@,
            clock_mappings@,
            timeline_gaps@,
            e@,
        ),
{
    if track_configurations.len() > MAX_TIMELINE_CONTROL_EVENTS
        || clock_mappings.len() > MAX_TIMELINE_CONTROL_EVENTS
        || timeline_gaps.len() > MAX_TIMELINE_CONTROL_EVENTS {
        return Err(String::from_str("recording timeline metadata exceeds its fixed bound"));
    }
    if !check_tracks(tracks) {
        return Err(String::from_str("recording track metadata is invalid"));
    }
    let mut i: usize = 0;
    while i < track_configurations.len()
        invariant
            track_configurations.len() <= MAX_TIMELINE_CONTROL_EVENTS,
            clock_mappings.len() <= MAX_TIMELINE_CONTROL_EVENTS,
            timeline_gaps.len() <= MAX_TIMELINE_CONTROL_EVENTS,
            tracks_ok(tracks@),
            i <= track_configurations.len(),
            forall|k: int| 0 <= k < i ==> #[trigger] config_ok(track_configurations@, k),
        decreases track_configurations.len() - i,
    {
        match check_config(track_configurations, i) {
            Ok(()) => {},
            Err(e) => {
                assert(!config_ok(track_configurations@, i as int));
                return Err(e);
            },
        }
        i = i + 1;
    }
    let mut i: usize = 0;
    while i < clock_mappings.len()
        invariant
            track_configurations.len() <= MAX_TIMELINE_CONTROL_EVENTS,
            clock_mappings.len() <= MAX_TIMELINE_CONTROL_EVENTS,
            timeline_gaps.len() <= MAX_TIMELINE_CONTROL_EVENTS,
            tracks_ok(tracks@),
            forall|k: int| 0 <= k < track_configurations.len() ==> #[trigger] config_ok(track_configurations@, k),
            i <= clock_mappings.len(),
            forall|k: int| 0 <= k < i ==> #[trigger] mapping_ok(track_configurations@, clock_mappings@, k),
        decreases clock_mappings.len() - i,
    {
        match check_mapping(track_configurations, clock_mappings, i) {
            Ok(()) => {},
            Err(e) => {
                assert(!mapping_ok(track_configurations@, clock_mappings@, i as int));
                return Err(e);
            },
        }
        i = i + 1;
    }
    let mut i: usize = 0;
    while i < tracks.len()
        invariant
            track_configurations.len() <= MAX_TIMELINE_CONTROL_EVENTS,
            clock_mappings.len() <= MAX_TIMELINE_CONTROL_EVENTS,
            timeline_gaps.len() <= MAX_TIMELINE_CONTROL_EVENTS,
            tracks_ok(tracks@),
            forall|k: int| 0 <= k < track_configurations.len() ==> #[trigger] config_ok(track_configurations@, k),
            forall|k: int| 0 <= k < clock_mappings.len() ==> #[trigger] mapping_ok(track_configurations@, clock_mappings@, k),
            i <= tracks.len(),
            forall|k: int| 0 <= k < i
                ==> configured(track_configurations@, (#[trigger] tracks@[k]).track_id@) && mapped(clock_mappings@, tracks@[k].track_id@),
        decreases tracks.len() - i,
    {
        if !find_configured_text(track_configurations, tracks[i].track_id.as_str())
            || !find_mapped_text(clock_mappings, tracks[i].track_id.as_str()) {
            return Err(String::from_str("recording track has no complete coordinator revision coverage"));
        }
        i = i + 1;
    }
    let mut i: usize = 0;
    while i < track_configurations.len()
        invariant
            track_configurations.len() <= MAX_TIMELINE_CONTROL_EVENTS,
            clock_mappings.len() <= MAX_TIMELINE_CONTROL_EVENTS,
            timeline_gaps.len() <= MAX_TIMELINE_CONTROL_EVENTS,
            tracks_ok(tracks@),
            forall|k: int| 0 <= k < track_configurations.len() ==> #[trigger] config_ok(track_configurations@, k),
            forall|k: int| 0 <= k < clock_mappings.len() ==> #[trigger] mapping_ok(track_configurations@, clock_mappings@, k),
            forall|k: int| 0 <= k < tracks.len()
                ==> configured(track_configurations@, (#[trigger] tracks@[k]).track_id@) && mapped(clock_mappings@, tracks@[k].track_id@),
            i <= track_configurations.len(),
            forall|k: int| 0 <= k < i ==> #[trigger] latest_config_mapped(track_configurations@, clock_mappings@, k),
        decreases track_configurations.len() - i,
    {
        if !check_latest_config_mapped(track_configurations, clock_mappings, i) {
            return Err(String::from_str("recording track configuration has no matching clock mapping"));
        }
        i = i + 1;
    }
    let mut i: usize = 0;
    while i < timeline_gaps.len()
        invariant
            track_configurations.len() <= MAX_TIMELINE_CONTROL_EVENTS,
            clock_mappings.len() <= MAX_TIMELINE_CONTROL_EVENTS,
            timeline_gaps.len() <= MAX_TIMELINE_CONTROL_EVENTS,
            tracks_ok(tracks@),
            forall|k: int| 0 <= k < track_configurations.len() ==> #[trigger] config_ok(track_configurations@, k),
            forall|k: int| 0 <= k < clock_mappings.len() ==> #[trigger] mapping_ok(track_configurations@, clock_mappings@, k),
            forall|k: int| 0 <= k < tracks.len()
                ==> configured(track_configurations@, (#[trigger] tracks@[k]).track_id@) && mapped(clock_mappings@, tracks@[k].track_id@),
            forall|k: int| 0 <= k < track_configurations.len() ==> #[trigger] latest_config_mapped(track_configurations@, clock_mappings@, k),
            i <= timeline_gaps.len(),
            forall|k: int| 0 <= k < i
                ==> #[trigger] gap_ok(session_id@, track_configurations@, clock_mappings@, timeline_gaps@, k),
        decreases timeline_gaps.len() - i,
    {
        match check_gap(session_id, track_configurations, clock_mappings, timeline_gaps, i) {
            Ok(()) => {},
            Err(e) => {
                assert(!gap_ok(session_id@, track_configurations@, clock_mappings@, timeline_gaps@, i as int));
                return Err(e);
            },
        }
        i = i + 1;
    }
    Ok(())
}

} // verus!
