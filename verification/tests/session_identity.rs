use yap_capture::session::{
    allocate_recording, allocation_step, ReservationOutcome, SessionId, SessionMetadata, TrackId, TriggerMode,
    UnixInstant,
};

fn start() -> UnixInstant {
    UnixInstant::from_unix_secs(1_700_000_000)
}

fn session() -> SessionId {
    SessionId::new("s-metadata".to_string()).unwrap()
}

#[test]
fn track_id_rejects_empty_control_or_separator_values() {
    for value in ["", "track/name", "track:name", "track\nname", "track name"] {
        assert!(
            TrackId::new(value.to_string()).is_err(),
            "{value:?} should be rejected"
        );
    }
    assert_eq!(TrackId::new("mic_1-A".to_string()).unwrap().as_str(), "mic_1-A");
}

#[test]
fn generated_session_ids_remain_distinct_across_process_and_counter_inputs() {
    let at = UnixInstant::from_unix_secs(17);
    let one = SessionId::generate_at(at, 1, 1).unwrap();
    let other_process = SessionId::generate_at(at, 2, 1).unwrap();
    let other_counter = SessionId::generate_at(at, 1, 2).unwrap();

    assert_ne!(one, other_process);
    assert_ne!(one, other_counter);
}

#[test]
fn generated_session_id_has_the_documented_hex_layout() {
    let at = UnixInstant::from_unix_secs(17);
    let id = SessionId::generate_at(at, 255, 16).unwrap();
    assert_eq!(id.as_str(), "s-3f5476a00-ff-10");
}

#[test]
fn recording_allocation_retries_create_new_collisions() {
    let mut attempts = 0;
    let mut counter = 0u64;
    let session_id = allocate_recording(
        |_attempt| {
            counter += 1;
            SessionId::generate_at(UnixInstant::from_unix_secs(1_700_000_000), 7, counter)
        },
        |_attempt, _| {
            attempts += 1;
            if attempts == 1 {
                return ReservationOutcome::AlreadyExists;
            }
            ReservationOutcome::Reserved
        },
    )
    .unwrap();

    assert_eq!(attempts, 2);
    assert!(session_id.as_str().starts_with("s-"));
}

#[test]
fn recording_allocation_stops_on_a_failed_reservation() {
    let result = allocate_recording(
        |_attempt| SessionId::generate_at(UnixInstant::from_unix_secs(1), 1, 1),
        |_attempt, _| ReservationOutcome::Failed("disk full".to_string()),
    );
    assert_eq!(
        result,
        Err("failed to reserve recording artifact: disk full".to_string())
    );
}

#[test]
fn metadata_formats_utc_as_rfc3339_and_keeps_timing_monotonic_elsewhere() {
    let metadata =
        SessionMetadata::dictation(session(), start(), TriggerMode::PushToTalk, "linux").unwrap();

    assert!(metadata.started_at_utc.ends_with('Z'));
    assert!(metadata.retention_expires_at_utc.is_none());
    assert_eq!(
        SessionMetadata::meeting(session(), start(), TriggerMode::Toggle, None, "linux")
            .unwrap()
            .retention_expires_at_utc,
        Some("2023-12-14T22:13:20Z".into())
    );
}

#[test]
fn metadata_started_at_is_the_exact_rfc3339_instant() {
    let metadata =
        SessionMetadata::dictation(session(), start(), TriggerMode::PushToTalk, "linux").unwrap();
    assert_eq!(metadata.started_at_utc, "2023-11-14T22:13:20Z");
}

#[test]
fn metadata_bounds_language_hints_and_validates_country_without_location_inference() {
    let languages = vec!["en-US".to_string(); 8];
    let metadata = SessionMetadata::dictation_with_hints(
        session(),
        start(),
        TriggerMode::PushToTalk,
        Some("us".into()),
        languages,
        "linux",
    )
    .unwrap();

    assert_eq!(metadata.country_code_hint.as_deref(), Some("US"));
    assert!(SessionMetadata::dictation_with_hints(
        session(),
        start(),
        TriggerMode::PushToTalk,
        None,
        vec!["en".into(); 9],
        "linux",
    )
    .is_err());
    assert!(SessionMetadata::dictation_with_hints(
        session(),
        start(),
        TriggerMode::PushToTalk,
        Some("USA".into()),
        Vec::new(),
        "linux",
    )
    .is_err());
}

#[test]
fn meeting_metadata_requires_an_explicit_retention_expiry() {
    let defaulted =
        SessionMetadata::meeting(session(), start(), TriggerMode::Toggle, None, "linux").unwrap();
    let explicit = SessionMetadata::meeting(
        session(),
        start(),
        TriggerMode::Toggle,
        Some(UnixInstant::from_unix_secs(1_700_000_000 + 7 * 24 * 60 * 60)),
        "linux",
    )
    .unwrap();

    assert!(defaulted.retention_expires_at_utc.is_some());
    assert!(explicit.retention_expires_at_utc.is_some());
}

#[test]
fn invalid_identifiers_are_refused_with_their_bound() {
    assert_eq!(
        SessionId::new(String::new()),
        Err("session ID must contain 1-128 ASCII letters, digits, _ or -".to_string())
    );
    assert_eq!(
        TrackId::new("track name".to_string()),
        Err("track ID must contain 1-64 ASCII letters, digits, _ or -".to_string())
    );
}

#[test]
fn refused_metadata_says_why() {
    assert_eq!(
        SessionMetadata::dictation_with_hints(
            session(),
            start(),
            TriggerMode::PushToTalk,
            Some("usa".to_string()),
            Vec::new(),
            "linux",
        ),
        Err("country hint must be exactly two ASCII letters".to_string())
    );
    assert_eq!(
        SessionMetadata::meeting(
            session(),
            start(),
            TriggerMode::Toggle,
            Some(UnixInstant::from_unix_secs(1_600_000_000)),
            "linux",
        ),
        Err("retention expiry must be after session start".to_string())
    );
    assert_eq!(
        SessionId::generate_at(UnixInstant { nanos_since_epoch: -1 }, 1, 1),
        Err("system clock is before the Unix epoch".to_string())
    );
}

#[test]
fn allocation_steps_decide_each_attempt() {
    let id = SessionId::new("s-1-2-3".to_string()).unwrap();
    assert_eq!(allocation_step(0, Ok(id.clone()), Some(ReservationOutcome::Reserved)), Some(Ok(id.clone())));
    assert_eq!(allocation_step(0, Ok(id.clone()), Some(ReservationOutcome::AlreadyExists)), None);
    assert_eq!(allocation_step(1022, Ok(id.clone()), Some(ReservationOutcome::AlreadyExists)), None);
    assert_eq!(
        allocation_step(1023, Ok(id.clone()), Some(ReservationOutcome::AlreadyExists)),
        Some(Err("failed to allocate a collision-free recording session ID".to_string()))
    );
    assert_eq!(
        allocation_step(5, Ok(id), Some(ReservationOutcome::Failed("denied".to_string()))),
        Some(Err("failed to reserve recording artifact: denied".to_string()))
    );
    assert_eq!(
        allocation_step(3, Err("system clock is before the Unix epoch".to_string()), None),
        Some(Err("system clock is before the Unix epoch".to_string()))
    );
}

#[test]
fn recording_allocation_gives_up_after_every_attempt_collided() {
    let mut attempts = 0u32;
    let mut counter = 0u64;
    let result = allocate_recording(
        |_attempt| {
            counter += 1;
            SessionId::generate_at(UnixInstant::from_unix_secs(1_700_000_000), 7, counter)
        },
        |_attempt, _| {
            attempts += 1;
            ReservationOutcome::AlreadyExists
        },
    );
    assert_eq!(attempts, 1024);
    assert_eq!(result, Err("failed to allocate a collision-free recording session ID".to_string()));
}

#[test]
fn allocation_attempts_are_numbered_from_zero() {
    let mut generated = Vec::new();
    let mut offered = Vec::new();
    let result = allocate_recording(
        |attempt| {
            generated.push(attempt);
            SessionId::generate_at(UnixInstant::from_unix_secs(5), 9, u64::from(attempt))
        },
        |attempt, _| {
            offered.push(attempt);
            if attempt < 2 {
                ReservationOutcome::AlreadyExists
            } else {
                ReservationOutcome::Reserved
            }
        },
    );
    assert_eq!(result.unwrap().as_str(), "s-12a05f200-9-2");
    assert_eq!(generated, vec![0, 1, 2]);
    assert_eq!(offered, vec![0, 1, 2]);
}
