use yap_capture::clock::{ClockMappingRevision, RecordingRevisionTransition};
use yap_capture::frame::{AudioGap, GapCause, TrackConfigurationRevision};
use yap_capture::journal::{CaptureJournal, JournalTrack, SequenceCoverage, CAPTURE_SCHEMA_VERSION};
use yap_capture::replay::{
    apply_journal_delta, first_changed_index, journal_lines, recover_journal, DurableJournalState,
    JournalDelta, JournalLine, JournalRecord,
};
use yap_capture::session::{SessionId, TrackId};

fn session() -> SessionId {
    SessionId::new("s-journal".to_string()).unwrap()
}

fn track(name: &str) -> TrackId {
    TrackId::new(name.to_string()).unwrap()
}

fn revision_transition(track_id: &TrackId, revision: u32, at_ms: u64, rate: u32, position: u64) -> RecordingRevisionTransition {
    RecordingRevisionTransition::new(
        TrackConfigurationRevision::new(track_id.clone(), revision, at_ms, rate).unwrap(),
        ClockMappingRevision::new(track_id.clone(), revision, position, at_ms).unwrap(),
    )
    .unwrap()
}

fn gap(track_id: &TrackId, duration_ms: u32, dropped: u64, cause: GapCause, generation: u64) -> AudioGap {
    AudioGap {
        session_id: session(),
        track_id: track_id.clone(),
        start_ms: 0,
        duration_ms,
        source_position_frames: 0,
        dropped_frames: dropped,
        cause,
        generation,
    }
}

fn line(record: JournalRecord) -> JournalLine {
    JournalLine {
        text: "{}".to_string(),
        record: Ok(record),
    }
}

fn torn(text: &str) -> JournalLine {
    JournalLine {
        text: text.to_string(),
        record: Err("EOF while parsing".to_string()),
    }
}

fn debug(journal: &CaptureJournal) -> String {
    format!("{journal:?}")
}

/// Persists `journal` as a delta against what `durable` holds, as the
/// recorder does, and returns the record with the new durable state.
fn persist(durable: &DurableJournalState, journal: &CaptureJournal) -> (JournalRecord, DurableJournalState) {
    (
        JournalRecord::Delta(durable.delta(journal)),
        DurableJournalState::from_journal(journal),
    )
}

#[test]
fn journal_recovers_the_valid_append_prefix_after_a_torn_tail() {
    let mic = track("live-microphone");
    let header = CaptureJournal::new(session());
    let mut journal = header.clone();
    let durable = DurableJournalState::from_journal(&journal);
    journal.observe_revision_transition(revision_transition(&mic, 1, 0, 16_000, 0)).unwrap();
    for sequence in 0..=4 {
        journal.observe_frame("live-microphone", 16_000, 1, sequence, sequence * 100);
    }
    let (delta, _) = persist(&durable, &journal);

    let recovered = recover_journal(
        None,
        vec![line(JournalRecord::Header(header)), line(delta), torn("{\"delta\":")],
        false,
    )
    .unwrap();

    assert_eq!(recovered.sequence_coverage[0].last_sequence, 4);
    assert_eq!(debug(&recovered), debug(&journal));
}

#[test]
fn a_torn_line_is_tolerated_only_at_the_unterminated_end() {
    let header = CaptureJournal::new(session());
    let error = recover_journal(
        None,
        vec![line(JournalRecord::Header(header.clone())), torn("{\"delta\":")],
        true,
    )
    .unwrap_err();
    assert_eq!(error, "Failed to parse recording journal: EOF while parsing");
    let error = recover_journal(
        None,
        vec![torn("{"), line(JournalRecord::Header(header))],
        false,
    )
    .unwrap_err();
    assert_eq!(error, "Failed to parse recording journal: EOF while parsing");
}

#[test]
fn journal_replay_keeps_an_earlier_multitrack_gap_replacement() {
    let microphone = track("microphone");
    let loopback = track("system-loopback");
    let header = CaptureJournal::new(session());
    let mut journal = header.clone();
    let mut durable = DurableJournalState::from_journal(&journal);
    let mut lines = vec![line(JournalRecord::Header(header))];
    for track_id in [&microphone, &loopback] {
        journal.observe_revision_transition(revision_transition(track_id, 1, 0, 16_000, 0)).unwrap();
        let (record, next) = persist(&durable, &journal);
        lines.push(line(record));
        durable = next;
    }
    for observed in [
        gap(&microphone, 10, 160, GapCause::CallbackPoolExhausted, 1),
        gap(&loopback, 10, 160, GapCause::DeviceDiscontinuity, 2),
        gap(&microphone, 20, 320, GapCause::CallbackPoolExhausted, 3),
    ] {
        journal.observe_gap(observed).unwrap();
        let (record, next) = persist(&durable, &journal);
        lines.push(line(record));
        durable = next;
    }

    let replayed = recover_journal(None, lines, true).unwrap();
    assert_eq!(replayed.timeline_gaps.len(), 2);
    let microphone_gap = replayed
        .timeline_gaps
        .iter()
        .find(|gap| gap.track_id == microphone)
        .unwrap();
    assert_eq!(microphone_gap.duration_ms, 20);
    assert_eq!(microphone_gap.dropped_frames, 320);
    assert_eq!(microphone_gap.generation, 3);
    assert_eq!(debug(&replayed), debug(&journal));
}

#[test]
fn journal_replay_rejects_sequence_coverage_that_starts_after_zero() {
    let mic = track("live-microphone");
    let header = JournalRecord::Header(CaptureJournal::new(session()));
    let delta = JournalRecord::Delta(JournalDelta {
        schema_version: CAPTURE_SCHEMA_VERSION,
        session_id: session(),
        tracks: vec![JournalTrack {
            track_id: mic.as_str().to_string(),
            sample_rate_hz: 16_000,
            channels: 1,
            first_start_ms: 0,
        }],
        revision_transitions: vec![revision_transition(&mic, 1, 0, 16_000, 0)],
        timeline_gap_start_index: 0,
        timeline_gaps: Vec::new(),
        sequence_coverage: vec![SequenceCoverage {
            track_id: mic.as_str().to_string(),
            first_sequence: 5,
            last_sequence: 5,
        }],
        gap_start_index: 0,
        sequence_gaps: Vec::new(),
        sequence_gap_overflow: None,
        sink_degraded: false,
    });

    let error = recover_journal(None, vec![line(header), line(delta)], true).unwrap_err();

    assert_eq!(error, "recording track sequence must start at zero");
}

#[test]
fn every_persisted_delta_replays_to_the_journal_it_was_written_from() {
    let mic = track("live-microphone");
    let mut journal = CaptureJournal::new(session());
    let header = journal.clone();
    let mut durable = DurableJournalState::from_journal(&journal);
    let mut replayed = header.clone();
    journal.observe_revision_transition(revision_transition(&mic, 1, 0, 16_000, 0)).unwrap();
    for sequence in [0, 1, 2, 5, 6, 9] {
        journal.observe_frame("live-microphone", 16_000, 1, sequence, sequence * 10);
        let JournalRecord::Delta(delta) = persist(&durable, &journal).0 else {
            unreachable!()
        };
        apply_journal_delta(&mut replayed, delta).unwrap();
        durable = DurableJournalState::from_journal(&journal);
        assert_eq!(debug(&replayed), debug(&journal), "after sequence {sequence}");
    }
    assert_eq!(journal.sequence_gaps.len(), 2);
    assert!(journal.sink_degraded);
}

#[test]
fn deltas_of_another_session_or_out_of_order_are_refused() {
    let mut journal = CaptureJournal::new(session());
    let durable = DurableJournalState::from_journal(&journal);
    let mut other = CaptureJournal::new(SessionId::new("s-other".to_string()).unwrap());
    other.observe_frame("mic", 16_000, 1, 0, 0);
    let foreign = durable.delta(&other);
    assert_eq!(
        apply_journal_delta(&mut journal, foreign),
        Err("recording journal delta does not match the session".to_string())
    );

    let mut grown = journal.clone();
    grown.observe_frame("mic", 16_000, 1, 0, 0);
    let mut delta = durable.delta(&grown);
    delta.timeline_gap_start_index = 1;
    assert_eq!(
        apply_journal_delta(&mut journal.clone(), delta),
        Err("recording journal timeline-gap delta is out of order".to_string())
    );
    let mut delta = durable.delta(&grown);
    delta.gap_start_index = 3;
    assert_eq!(
        apply_journal_delta(&mut journal, delta),
        Err("recording journal gap delta is out of order".to_string())
    );
}

#[test]
fn replay_needs_exactly_one_header_before_its_deltas() {
    let header = CaptureJournal::new(session());
    let durable = DurableJournalState::from_journal(&header);
    let delta = JournalRecord::Delta(durable.delta(&header));
    assert_eq!(
        recover_journal(None, vec![line(delta)], true).unwrap_err(),
        "recording journal delta has no header"
    );
    assert_eq!(
        recover_journal(
            None,
            vec![line(JournalRecord::Header(header.clone())), line(JournalRecord::Header(header.clone()))],
            true
        )
        .unwrap_err(),
        "recording journal has multiple headers"
    );
    assert_eq!(
        recover_journal(None, Vec::new(), true).unwrap_err(),
        "recording journal has no valid header"
    );
    let overflow = JournalRecord::Overflow {
        session_id: SessionId::new("s-other".to_string()).unwrap(),
        reason: "journal size limit reached".to_string(),
    };
    assert_eq!(
        recover_journal(None, vec![line(JournalRecord::Header(header.clone())), line(overflow)], true)
            .unwrap_err(),
        "recording journal overflow session does not match"
    );
    let own_overflow = JournalRecord::Overflow {
        session_id: session(),
        reason: "journal size limit reached".to_string(),
    };
    let blank = JournalLine {
        text: String::new(),
        record: Err("blank".to_string()),
    };
    let recovered = recover_journal(
        None,
        vec![line(JournalRecord::Header(header)), blank, line(own_overflow)],
        true,
    )
    .unwrap();
    assert_eq!(recovered.session_id, session());
}

#[test]
fn a_whole_file_snapshot_is_validated_and_kept() {
    let mut snapshot = CaptureJournal::new(session());
    snapshot.observe_frame("mic", 16_000, 1, 0, 0);
    assert!(recover_journal(Some(snapshot.clone()), Vec::new(), true).is_err());
    let empty = CaptureJournal::new(session());
    let kept = recover_journal(Some(empty.clone()), vec![torn("x")], true).unwrap();
    assert_eq!(debug(&kept), debug(&empty));
}

#[test]
fn journal_text_splits_into_lines_as_str_lines_does() {
    assert_eq!(journal_lines(""), Vec::<String>::new());
    assert_eq!(journal_lines("a\r\nb\n"), ["a", "b"]);
    assert_eq!(journal_lines("a\nb"), ["a", "b"]);
    assert_eq!(journal_lines("a\n\n"), ["a", ""]);
    assert_eq!(journal_lines("a\r"), ["a\r"]);
    assert_eq!(journal_lines("\n"), [""]);
}

#[test]
fn the_first_changed_gap_is_where_the_lists_part() {
    let mic = track("mic");
    let a = gap(&mic, 10, 160, GapCause::CallbackPoolExhausted, 1);
    let b = gap(&mic, 20, 320, GapCause::CallbackPoolExhausted, 2);
    assert_eq!(first_changed_index(&vec![a.clone(), b.clone()], &vec![a.clone(), b.clone()]), 2);
    assert_eq!(first_changed_index(&vec![a.clone(), a.clone()], &vec![a.clone(), b.clone()]), 1);
    assert_eq!(first_changed_index(&vec![a.clone()], &vec![a.clone(), b.clone()]), 1);
    assert_eq!(first_changed_index(&vec![], &vec![b]), 0);
}

#[test]
fn refused_transitions_and_gaps_say_why() {
    let mic = track("mic");
    let mut journal = CaptureJournal::new(session());
    assert_eq!(
        journal.observe_revision_transition(revision_transition(&mic, 2, 0, 16_000, 0)),
        Err("recording track configuration is not monotonic".to_string())
    );
    assert_eq!(
        journal.observe_gap(gap(&mic, 10, 160, GapCause::CallbackPoolExhausted, 0)),
        Err("recording timeline gap is invalid".to_string())
    );
    journal.observe_revision_transition(revision_transition(&mic, 1, 0, 16_000, 0)).unwrap();
    journal.observe_gap(gap(&mic, 10, 160, GapCause::CallbackPoolExhausted, 1)).unwrap();
    assert_eq!(
        journal.observe_gap(gap(&mic, 5, 80, GapCause::CallbackPoolExhausted, 2)),
        Err("recording timeline gap replacement regressed".to_string())
    );
}
