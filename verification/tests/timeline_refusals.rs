use yap_capture::clock::ClockMappingRevision;
use yap_capture::frame::{AudioGap, GapCause, TrackConfigurationRevision};
use yap_capture::journal::JournalTrack;
use yap_capture::session::{SessionId, TrackId};
use yap_capture::sidecar::validate_timeline_control_metadata;

fn session() -> SessionId {
    SessionId::new("s-refusals".to_string()).unwrap()
}

fn track() -> TrackId {
    TrackId::new("live-microphone".to_string()).unwrap()
}

fn tracks() -> Vec<JournalTrack> {
    vec![JournalTrack {
        track_id: "live-microphone".to_string(),
        sample_rate_hz: 16_000,
        channels: 1,
        first_start_ms: 0,
    }]
}

fn config(revision: u32, effective_at_ms: u64) -> TrackConfigurationRevision {
    TrackConfigurationRevision { track_id: track(), revision, effective_at_ms, sample_rate_hz: 16_000 }
}

fn mapping(revision: u32, source_position_frames: u64, session_time_ms: u64) -> ClockMappingRevision {
    ClockMappingRevision { track_id: track(), revision, source_position_frames, session_time_ms }
}

fn gap(start_ms: u64, duration_ms: u32, source: u64, dropped: u64, generation: u64) -> AudioGap {
    AudioGap {
        session_id: session(),
        track_id: track(),
        start_ms,
        duration_ms,
        source_position_frames: source,
        dropped_frames: dropped,
        cause: GapCause::CallbackPoolExhausted,
        generation,
    }
}

fn check(configs: Vec<TrackConfigurationRevision>, mappings: Vec<ClockMappingRevision>, gaps: Vec<AudioGap>) -> Result<(), String> {
    validate_timeline_control_metadata(&session(), &tracks(), &configs, &mappings, &gaps)
}

#[test]
fn timeline_with_one_gap_on_its_revision_is_accepted() {
    assert_eq!(check(vec![config(1, 0)], vec![mapping(1, 0, 0)], vec![gap(0, 1_000, 0, 16_000, 1)]), Ok(()));
}

#[test]
fn configuration_refusals_tell_invalid_from_discontiguous() {
    assert_eq!(
        check(vec![config(0, 0)], vec![mapping(1, 0, 0)], vec![]),
        Err("recording track configuration is invalid".to_string())
    );
    assert_eq!(
        check(vec![config(1, 0), config(3, 5)], vec![mapping(1, 0, 0)], vec![]),
        Err("recording track configuration revisions are not contiguous".to_string())
    );
}

#[test]
fn clock_mapping_refusals_name_their_cause() {
    assert_eq!(
        check(vec![config(1, 0)], vec![mapping(1, 0, 5)], vec![]),
        Err("recording revision transition timestamp does not match".to_string())
    );
    assert_eq!(
        check(vec![config(1, 0)], vec![mapping(2, 0, 0)], vec![]),
        Err("recording clock mapping has no matching configuration revision".to_string())
    );
    assert_eq!(
        check(vec![config(1, 0), config(2, 1_000)], vec![mapping(2, 16_000, 1_000)], vec![]),
        Err("recording clock mapping revisions are not contiguous".to_string())
    );
}

#[test]
fn gap_refusals_name_their_cause() {
    let configs = || vec![config(1, 0), config(2, 1_000)];
    let mappings = || vec![mapping(1, 0, 0), mapping(2, 16_000, 1_000)];
    assert_eq!(
        check(configs(), mappings(), vec![gap(5, 1_000, 0, 16_000, 1)]),
        Err("recording timeline gap does not match its clock revision".to_string())
    );
    assert_eq!(
        check(configs(), mappings(), vec![gap(0, 2_000, 0, 32_000, 1)]),
        Err("recording timeline gap crosses a clock revision".to_string())
    );
    assert_eq!(
        check(configs(), mappings(), vec![gap(0, 500, 0, 8_000, 1), gap(500, 250, 8_000, 4_000, 2)]),
        Err("recording timeline contains an uncoalesced contiguous gap".to_string())
    );
    assert_eq!(
        check(configs(), mappings(), vec![gap(0, 250, 0, 4_000, 2), gap(500, 250, 8_000, 4_000, 2)]),
        Err("recording timeline gaps are not monotonic".to_string())
    );
    assert_eq!(
        check(configs(), mappings(), vec![gap(0, 0, 0, 4_000, 1)]),
        Err("recording timeline gap is invalid".to_string())
    );
}
