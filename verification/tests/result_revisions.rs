use yap_capture::results::{
    validate_wire_revision, AlignedWord, ClientSpeakerAttribution, ModelRevision,
    ResultAuthority, ResultRevisionError, ResultStatus, SpeakerResultRevision, SpeakerTurn,
    TranscriptResultRevision,
};
use yap_capture::session::SessionId;

fn hash(value: char) -> String {
    value.to_string().repeat(64)
}

fn turn() -> SpeakerTurn {
    SpeakerTurn::new(
        "turn-1".to_string(),
        0,
        20,
        ClientSpeakerAttribution::unknown(),
        Some(800),
    )
    .unwrap()
}

fn model() -> ModelRevision {
    ModelRevision::new(
        "speaker-model".to_string(),
        "r1".to_string(),
        "calibration-r1".to_string(),
    )
    .unwrap()
}

fn session() -> SessionId {
    SessionId::new("s-result".to_string()).unwrap()
}

#[test]
fn result_revisions_require_capture_hash_and_monotonic_revision() {
    assert!(SpeakerResultRevision::new(
        session(),
        1,
        ResultAuthority::LocalProvisional,
        String::new(),
        None,
        ResultStatus::Complete,
        vec![turn()],
        Vec::new(),
        vec![model()],
    )
    .is_err());

    let first = SpeakerResultRevision::new(
        session(),
        1,
        ResultAuthority::LocalProvisional,
        hash('a'),
        None,
        ResultStatus::Complete,
        vec![turn()],
        Vec::new(),
        vec![model()],
    )
    .unwrap();

    assert!(first
        .next_revision(
            1,
            ResultAuthority::LocalReconciled,
            hash('a'),
            hash('b'),
            ResultStatus::Complete,
            Vec::new(),
            Vec::new(),
            Vec::new(),
        )
        .is_err());
    assert!(first
        .next_revision(
            2,
            ResultAuthority::LocalReconciled,
            hash('a'),
            String::new(),
            ResultStatus::Complete,
            Vec::new(),
            Vec::new(),
            Vec::new(),
        )
        .is_err());
    assert!(first
        .next_revision(
            2,
            ResultAuthority::LocalReconciled,
            hash('a'),
            hash('b'),
            ResultStatus::Complete,
            Vec::new(),
            Vec::new(),
            Vec::new(),
        )
        .is_ok());
}

#[test]
fn transcript_revisions_require_a_valid_predecessor_hash_and_next_revision() {
    let first = TranscriptResultRevision::new(
        session(),
        1,
        ResultAuthority::LocalProvisional,
        hash('a'),
        None,
        ResultStatus::Complete,
        "hello".to_string(),
        Vec::new(),
        Vec::new(),
    )
    .unwrap();

    assert!(first
        .next_revision(
            1,
            ResultAuthority::LocalReconciled,
            hash('a'),
            hash('b'),
            ResultStatus::Complete,
            "hello again".to_string(),
            Vec::new(),
            Vec::new(),
        )
        .is_err());
}

#[test]
fn result_revision_chains_keep_the_capture_sidecar_immutable() {
    let first = TranscriptResultRevision::new(
        session(),
        1,
        ResultAuthority::LocalProvisional,
        hash('a'),
        None,
        ResultStatus::Complete,
        "hello".to_string(),
        Vec::new(),
        Vec::new(),
    )
    .unwrap();

    assert_eq!(
        first
            .next_revision(
                2,
                ResultAuthority::LocalReconciled,
                hash('c'),
                hash('b'),
                ResultStatus::Complete,
                "hello again".to_string(),
                Vec::new(),
                Vec::new(),
            )
            .err(),
        Some(ResultRevisionError::CaptureHashChanged)
    );
}

#[test]
fn each_revision_error_has_an_input_that_produces_it() {
    let root = |revision: u64, capture: String, previous: Option<String>| {
        TranscriptResultRevision::new(
            session(),
            revision,
            ResultAuthority::LocalProvisional,
            capture,
            previous,
            ResultStatus::Partial,
            String::new(),
            Vec::new(),
            Vec::new(),
        )
        .err()
    };
    assert_eq!(
        root(1, "x".repeat(64), None),
        Some(ResultRevisionError::InvalidCaptureHash)
    );
    assert_eq!(
        root(2, hash('a'), None),
        Some(ResultRevisionError::NonMonotonicRevision)
    );
    assert_eq!(
        root(1, hash('a'), Some(hash('b'))),
        Some(ResultRevisionError::UnexpectedPreviousResultHash)
    );
    assert_eq!(root(1, hash('A'), None), None);

    let first = TranscriptResultRevision::new(
        session(),
        u64::MAX - 1,
        ResultAuthority::LocalProvisional,
        hash('a'),
        Some(hash('f')),
        ResultStatus::Complete,
        String::new(),
        Vec::new(),
        Vec::new(),
    );
    assert_eq!(first.err(), Some(ResultRevisionError::NonMonotonicRevision));

    let wire = TranscriptResultRevision::from_wire(
        session(),
        u64::MAX,
        ResultAuthority::LocalProvisional,
        hash('a'),
        Some(hash('f')),
        ResultStatus::Complete,
        String::new(),
        Vec::new(),
        Vec::new(),
    )
    .unwrap();
    assert_eq!(
        wire.next_revision(
            u64::MAX,
            ResultAuthority::LocalProvisional,
            hash('a'),
            hash('b'),
            ResultStatus::Complete,
            String::new(),
            Vec::new(),
            Vec::new(),
        )
        .err(),
        Some(ResultRevisionError::RevisionOverflow)
    );

    let named_word = AlignedWord::new(
        "hi".to_string(),
        0,
        5,
        ClientSpeakerAttribution::named("Ada".to_string()),
        None,
    )
    .unwrap();
    assert_eq!(
        TranscriptResultRevision::new(
            session(),
            1,
            ResultAuthority::LocalProvisional,
            hash('a'),
            None,
            ResultStatus::Complete,
            "hi".to_string(),
            vec![named_word.clone()],
            Vec::new(),
        )
        .err(),
        Some(ResultRevisionError::NamedAttributionRequiresServerAuthority)
    );
    assert!(TranscriptResultRevision::new(
        session(),
        1,
        ResultAuthority::ServerAuthoritative,
        hash('a'),
        None,
        ResultStatus::Complete,
        "hi".to_string(),
        vec![named_word],
        Vec::new(),
    )
    .is_ok());
}

#[test]
fn wire_revisions_check_their_predecessor_by_position() {
    assert_eq!(validate_wire_revision(1, &hash('a'), &None), Ok(()));
    assert_eq!(
        validate_wire_revision(1, &hash('a'), &Some(hash('b'))),
        Err(ResultRevisionError::UnexpectedPreviousResultHash)
    );
    assert_eq!(
        validate_wire_revision(0, &hash('a'), &None),
        Err(ResultRevisionError::NonMonotonicRevision)
    );
    assert_eq!(
        validate_wire_revision(3, &hash('a'), &None),
        Err(ResultRevisionError::MissingPreviousResultHash)
    );
    assert_eq!(
        validate_wire_revision(3, &hash('a'), &Some("zz".to_string())),
        Err(ResultRevisionError::InvalidPreviousResultHash)
    );
    assert_eq!(validate_wire_revision(3, &hash('a'), &Some(hash('9'))), Ok(()));
    assert_eq!(
        validate_wire_revision(3, "", &Some(hash('9'))),
        Err(ResultRevisionError::InvalidCaptureHash)
    );
}

#[test]
fn evidence_rejects_reversed_intervals_and_out_of_range_confidence() {
    assert!(SpeakerTurn::new(
        "t".to_string(),
        10,
        5,
        ClientSpeakerAttribution::unknown(),
        None
    )
    .is_err());
    assert!(SpeakerTurn::new(
        "t".to_string(),
        0,
        5,
        ClientSpeakerAttribution::unknown(),
        Some(1001)
    )
    .is_err());
    assert!(!turn().has_named_attribution());
    assert!(ModelRevision::new(String::new(), "r".to_string(), "c".to_string()).is_err());
}

fn named_turn() -> SpeakerTurn {
    SpeakerTurn::new(
        "turn-1".to_string(),
        0,
        20,
        ClientSpeakerAttribution::named("identity-1".to_string()),
        Some(900),
    )
    .unwrap()
}

#[test]
fn result_json_rejects_bad_hashes_and_zero_revision_for_both_result_types() {
    assert!(SpeakerResultRevision::from_wire(
        session(),
        0,
        ResultAuthority::LocalProvisional,
        "not-a-sha256".to_string(),
        None,
        ResultStatus::Complete,
        Vec::new(),
        Vec::new(),
        Vec::new(),
    )
    .is_err());

    assert!(TranscriptResultRevision::from_wire(
        session(),
        0,
        ResultAuthority::LocalProvisional,
        "not-a-sha256".to_string(),
        None,
        ResultStatus::Complete,
        "hello".to_string(),
        Vec::new(),
        Vec::new(),
    )
    .is_err());
}

#[test]
fn local_result_json_cannot_claim_named_server_attribution() {
    assert!(SpeakerResultRevision::from_wire(
        session(),
        1,
        ResultAuthority::LocalProvisional,
        hash('a'),
        None,
        ResultStatus::Complete,
        vec![named_turn()],
        Vec::new(),
        Vec::new(),
    )
    .is_err());
}

#[test]
fn server_result_json_accepts_named_attribution_with_complete_provenance() {
    assert!(SpeakerResultRevision::from_wire(
        session(),
        1,
        ResultAuthority::ServerAuthoritative,
        hash('a'),
        None,
        ResultStatus::Complete,
        vec![named_turn()],
        Vec::new(),
        Vec::new(),
    )
    .is_ok());
}
