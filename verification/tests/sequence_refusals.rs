use yap_capture::capture::validate_sequence_metadata;
use yap_capture::journal::{JournalTrack, SequenceCoverage, SequenceGap, SequenceGapOverflow};

fn tracks() -> Vec<JournalTrack> {
    vec![JournalTrack { track_id: "mic".to_string(), sample_rate_hz: 16_000, channels: 1, first_start_ms: 0 }]
}

fn coverage(first: u64, last: u64) -> SequenceCoverage {
    SequenceCoverage { track_id: "mic".to_string(), first_sequence: first, last_sequence: last }
}

fn gap(track: &str, first: u64, dropped: u64) -> SequenceGap {
    SequenceGap { track_id: track.to_string(), first_sequence: first, dropped_frames: dropped }
}

fn check(
    coverage: Vec<SequenceCoverage>,
    gaps: Vec<SequenceGap>,
    overflow: Option<SequenceGapOverflow>,
    degraded: bool,
) -> Result<(), String> {
    validate_sequence_metadata(&tracks(), &coverage, &gaps, &overflow, degraded)
}

#[test]
fn complete_sequence_metadata_is_accepted() {
    assert_eq!(check(vec![coverage(0, 10)], vec![], None, false), Ok(()));
}

#[test]
fn sequence_refusals_name_their_cause() {
    let refused = |r: Result<(), String>| r.unwrap_err();
    assert_eq!(refused(check(vec![coverage(1, 10)], vec![], None, false)), "recording track sequence must start at zero");
    assert_eq!(
        refused(check(vec![coverage(0, 10), coverage(0, 4)], vec![], None, false)),
        "recording sequence coverage is invalid"
    );
    assert_eq!(refused(check(vec![], vec![], None, false)), "recording track has no sequence coverage");
    assert_eq!(
        refused(check(vec![coverage(0, 10)], vec![gap("other", 2, 1)], None, true)),
        "recording sequence gap has no coverage"
    );
    assert_eq!(
        refused(check(vec![coverage(0, 10)], vec![gap("mic", 2, 9)], None, true)),
        "recording sequence gap is invalid"
    );
    assert_eq!(
        refused(check(vec![coverage(0, 10)], vec![gap("mic", 4, 3), gap("mic", 5, 1)], None, true)),
        "recording sequence gaps are not ordered"
    );
    assert_eq!(
        refused(check(vec![coverage(0, 10)], vec![gap("mic", 2, 1)], None, false)),
        "recording sequence degradation is inconsistent"
    );
    assert_eq!(
        refused(check(vec![coverage(0, 10)], vec![gap("mic", 2, 1)], None, true)),
        "degraded recording metadata cannot be complete"
    );
    let overflow = SequenceGapOverflow { detail_capacity: 1, omitted_gap_count: 1, omitted_dropped_frames: 1 };
    assert_eq!(
        refused(check(vec![coverage(0, 10)], vec![gap("mic", 2, 1)], Some(overflow), true)),
        "recording sequence-gap overflow is invalid"
    );
}
