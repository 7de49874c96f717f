use yap_capture::history::{
    collect_history_catalog, ensure_history_authorized, history_error, history_path_identity,
    history_visibility_error, identity_to_hide, origin_from_text, origin_text,
    plan_hidden_path_migration, project_history_catalog, project_with_visibility,
    resolve_current_native_identity, select_hidden_path_migration, valid_native_identity,
    visibility_schema_supported, CompletedRemoteTranscript, CompletedRemoteTranscriptCatalog,
    HistoryCatalog, HistoryOrigin, NativeHistoryIdentity, RecoverableLiveSession,
    SavedLiveSession, SavedLiveSessionCatalog, MAX_HISTORY_PATH_CHARS, MAX_HISTORY_SESSIONS,
    RECOVERY_WINDOW_MS,
};

fn no_live() -> SavedLiveSessionCatalog {
    SavedLiveSessionCatalog {
        sessions: Vec::new(),
        maintenance_warnings: Vec::new(),
    }
}

fn remote(
    sessions: Vec<CompletedRemoteTranscript>,
    maintenance_warnings: Vec<String>,
) -> CompletedRemoteTranscriptCatalog {
    CompletedRemoteTranscriptCatalog {
        sessions,
        maintenance_warnings,
    }
}

fn transcript(session_id: &str, output_path: &str, created_at_ms: u64) -> CompletedRemoteTranscript {
    CompletedRemoteTranscript {
        session_id: session_id.into(),
        name: format!("Name {session_id}"),
        source_path: format!("{session_id}.wav"),
        output_path: output_path.into(),
        created_at_ms,
        warning: None,
    }
}

fn build_history_catalog(
    live: SavedLiveSessionCatalog,
    recoverable: Vec<RecoverableLiveSession>,
    remote: CompletedRemoteTranscriptCatalog,
) -> HistoryCatalog {
    project_history_catalog(collect_history_catalog(live, recoverable, remote), &Vec::new())
}

fn many_remote_sessions() -> Vec<CompletedRemoteTranscript> {
    (0..=MAX_HISTORY_SESSIONS)
        .map(|index| CompletedRemoteTranscript {
            session_id: format!("remote-{index}"),
            name: format!("Remote {index}"),
            source_path: format!("source-{index}.wav"),
            output_path: format!("remote-{index}.txt"),
            created_at_ms: index as u64,
            warning: None,
        })
        .collect()
}

#[test]
fn catalog_combines_native_sources_with_explicit_provenance() {
    let catalog = build_history_catalog(
        SavedLiveSessionCatalog {
            sessions: vec![SavedLiveSession {
                session_id: "live-1".into(),
                name: "Live".into(),
                source_path: "live.wav".into(),
                output_path: "live.txt".into(),
                created_at_ms: 30,
                warning: None,
                capture_commit_path: Some("live.commit.json".into()),
                recovery_state: None,
            }],
            maintenance_warnings: vec!["shared warning".into()],
        },
        vec![RecoverableLiveSession {
            session_id: "recover-1".into(),
            name: "Recover".into(),
            audio_partial_path: Some("recover.wav.part".into()),
            journal_partial_path: None,
            reason: "Interrupted".into(),
            expires_at_ms: RECOVERY_WINDOW_MS + 20,
        }],
        CompletedRemoteTranscriptCatalog {
            sessions: vec![CompletedRemoteTranscript {
                session_id: "remote-1".into(),
                name: "Remote".into(),
                source_path: "source.wav".into(),
                output_path: "remote.txt".into(),
                created_at_ms: 10,
                warning: None,
            }],
            maintenance_warnings: vec!["shared warning".into(), "remote warning".into()],
        },
    );

    assert_eq!(catalog.sessions.len(), 3);
    assert_eq!(catalog.sessions[0].origin, HistoryOrigin::Live);
    assert_eq!(
        catalog.sessions[1].recovery_state.as_deref(),
        Some("recoverable")
    );
    assert_eq!(catalog.sessions[1].created_at_ms, 20);
    assert_eq!(catalog.sessions[2].origin, HistoryOrigin::Remote);
    assert_eq!(
        catalog.maintenance_warnings,
        ["shared warning", "remote warning"]
    );
}

#[test]
fn catalog_is_bounded_to_the_newest_native_sessions() {
    let catalog = build_history_catalog(no_live(), Vec::new(), remote(many_remote_sessions(), Vec::new()));

    assert_eq!(catalog.sessions.len(), MAX_HISTORY_SESSIONS);
    assert_eq!(
        catalog.sessions[0].created_at_ms,
        MAX_HISTORY_SESSIONS as u64
    );
    assert_eq!(catalog.sessions.last().unwrap().created_at_ms, 1);
}

#[test]
fn catalog_applies_native_visibility_before_the_history_window() {
    let raw = collect_history_catalog(no_live(), Vec::new(), remote(many_remote_sessions(), Vec::new()));
    let hidden = vec![NativeHistoryIdentity {
        origin: HistoryOrigin::Remote,
        session_id: format!("remote-{MAX_HISTORY_SESSIONS}"),
        output_path: format!("remote-{MAX_HISTORY_SESSIONS}.txt"),
    }];

    let visible = project_history_catalog(raw, &hidden);

    assert_eq!(visible.sessions.len(), MAX_HISTORY_SESSIONS);
    assert_eq!(
        visible.sessions[0].created_at_ms,
        (MAX_HISTORY_SESSIONS - 1) as u64
    );
    assert_eq!(visible.sessions.last().unwrap().created_at_ms, 0);
}

#[test]
fn native_visibility_requires_the_exact_current_catalog_identity() {
    let raw = collect_history_catalog(
        no_live(),
        Vec::new(),
        remote(
            vec![CompletedRemoteTranscript {
                session_id: "remote-1".into(),
                name: "Remote".into(),
                source_path: "source.wav".into(),
                output_path: "remote.txt".into(),
                created_at_ms: 1,
                warning: None,
            }],
            Vec::new(),
        ),
    );
    let current = raw.sessions[0].identity();
    assert_eq!(
        resolve_current_native_identity(&raw, &current),
        Some(current.clone())
    );

    let mut wrong_session = current.clone();
    wrong_session.session_id = "remote-2".into();
    assert_eq!(resolve_current_native_identity(&raw, &wrong_session), None);
    let mut wrong_path = current;
    wrong_path.output_path = "other.txt".into();
    assert_eq!(resolve_current_native_identity(&raw, &wrong_path), None);
}

#[test]
fn hidden_path_migration_admits_only_current_native_catalog_paths() {
    let raw = collect_history_catalog(
        no_live(),
        Vec::new(),
        remote(
            vec![CompletedRemoteTranscript {
                session_id: "remote-1".into(),
                name: "Remote".into(),
                source_path: r"C:\Yap\source.wav".into(),
                output_path: r"C:\Yap\remote.txt".into(),
                created_at_ms: 1,
                warning: None,
            }],
            Vec::new(),
        ),
    );

    let (identities, migrated) = select_hidden_path_migration(
        &raw,
        vec![
            "c:/yap/./remote.txt".into(),
            r"C:\YAP\remote.txt".into(),
            r"C:\Other\external.txt".into(),
        ],
    );

    assert_eq!(identities, vec![raw.sessions[0].identity()]);
    assert_eq!(migrated, ["c:/yap/./remote.txt"]);
}

#[test]
fn hidden_path_migration_preserves_newest_first_client_order() {
    let raw = collect_history_catalog(
        no_live(),
        Vec::new(),
        remote(
            vec![
                CompletedRemoteTranscript {
                    session_id: "newest".into(),
                    name: "Newest".into(),
                    source_path: "newest.wav".into(),
                    output_path: "newest.txt".into(),
                    created_at_ms: 2,
                    warning: None,
                },
                CompletedRemoteTranscript {
                    session_id: "older".into(),
                    name: "Older".into(),
                    source_path: "older.wav".into(),
                    output_path: "older.txt".into(),
                    created_at_ms: 1,
                    warning: None,
                },
            ],
            Vec::new(),
        ),
    );

    let (identities, migrated) =
        select_hidden_path_migration(&raw, vec!["newest.txt".into(), "older.txt".into()]);

    assert_eq!(
        identities
            .iter()
            .map(|identity| identity.session_id.as_str())
            .collect::<Vec<_>>(),
        ["newest", "older"]
    );
    assert_eq!(migrated, ["newest.txt", "older.txt"]);
}

#[test]
fn catalog_keeps_an_orphaned_recoverable_row_visible_by_name() {
    let catalog = build_history_catalog(
        no_live(),
        vec![RecoverableLiveSession {
            session_id: "orphan".into(),
            name: "live-orphan".into(),
            audio_partial_path: None,
            journal_partial_path: None,
            reason: "Interrupted".into(),
            expires_at_ms: RECOVERY_WINDOW_MS,
        }],
        remote(Vec::new(), Vec::new()),
    );

    assert_eq!(catalog.sessions[0].source_path, "live-orphan");
    assert_eq!(catalog.sessions[0].output_path, "live-orphan");
}

#[test]
fn recoverable_rows_prefer_the_audio_then_the_journal_part() {
    let catalog = build_history_catalog(
        no_live(),
        vec![RecoverableLiveSession {
            session_id: "orphan".into(),
            name: "live-orphan".into(),
            audio_partial_path: None,
            journal_partial_path: Some("live-orphan.capture.journal.part".into()),
            reason: "Interrupted".into(),
            expires_at_ms: 5,
        }],
        remote(Vec::new(), Vec::new()),
    );
    assert_eq!(catalog.sessions[0].output_path, "live-orphan.capture.journal.part");
    assert_eq!(catalog.sessions[0].created_at_ms, 0);
    assert_eq!(catalog.sessions[0].warning.as_deref(), Some("Interrupted"));
}

#[test]
fn equal_times_order_by_session_then_origin() {
    let catalog = collect_history_catalog(
        SavedLiveSessionCatalog {
            sessions: vec![SavedLiveSession {
                session_id: "b".into(),
                name: "Live".into(),
                source_path: "live.wav".into(),
                output_path: "live.txt".into(),
                created_at_ms: 7,
                warning: None,
                capture_commit_path: None,
                recovery_state: None,
            }],
            maintenance_warnings: Vec::new(),
        },
        Vec::new(),
        remote(vec![transcript("b", "b.txt", 7), transcript("a", "a.txt", 7)], Vec::new()),
    );
    let order: Vec<(&str, HistoryOrigin)> = catalog
        .sessions
        .iter()
        .map(|s| (s.session_id.as_str(), s.origin))
        .collect();
    assert_eq!(
        order,
        [("a", HistoryOrigin::Remote), ("b", HistoryOrigin::Live), ("b", HistoryOrigin::Remote)]
    );
}

#[test]
fn origins_round_trip_through_their_stored_names() {
    for origin in [HistoryOrigin::Live, HistoryOrigin::Remote] {
        assert_eq!(origin_from_text(origin_text(origin)), Some(origin));
    }
    assert_eq!(origin_text(HistoryOrigin::Live), "live");
    assert_eq!(origin_text(HistoryOrigin::Remote), "remote");
    assert_eq!(origin_from_text("Live"), None);
    assert!(visibility_schema_supported(1));
    assert!(!visibility_schema_supported(2));
}

#[test]
fn native_identities_are_checked_before_they_are_resolved() {
    let good = NativeHistoryIdentity {
        origin: HistoryOrigin::Remote,
        session_id: "remote_1-A".into(),
        output_path: "remote.txt".into(),
    };
    assert!(valid_native_identity(&good));
    let mut bad_session = good.clone();
    bad_session.session_id = "remote 1".into();
    assert!(!valid_native_identity(&bad_session));
    let mut long_session = good.clone();
    long_session.session_id = "a".repeat(129);
    assert!(!valid_native_identity(&long_session));
    let mut empty_path = good.clone();
    empty_path.output_path = String::new();
    assert!(!valid_native_identity(&empty_path));
    let mut nul_path = good.clone();
    nul_path.output_path = "a\0b".into();
    assert!(!valid_native_identity(&nul_path));
    let mut long_path = good;
    long_path.output_path = "p".repeat(MAX_HISTORY_PATH_CHARS + 1);
    assert!(!valid_native_identity(&long_path));
}

#[test]
fn hiding_remembers_only_current_well_formed_identities() {
    let raw = collect_history_catalog(
        no_live(),
        Vec::new(),
        remote(vec![transcript("remote-1", "remote.txt", 1)], Vec::new()),
    );
    let current = raw.sessions[0].identity();
    assert_eq!(identity_to_hide(&raw, &current), Ok(current.clone()));

    let mut stale = current.clone();
    stale.output_path = "other.txt".into();
    let error = identity_to_hide(&raw, &stale).unwrap_err();
    assert_eq!(error.code, "HISTORY_IDENTITY_STALE");
    assert_eq!(
        error.message,
        "History identity is no longer current. Refresh history and try again."
    );

    let mut malformed = current;
    malformed.session_id = "bad id".into();
    assert_eq!(identity_to_hide(&raw, &malformed).unwrap_err().code, "HISTORY_IDENTITY_STALE");
}

#[test]
fn migration_requests_are_bounded() {
    let raw = collect_history_catalog(
        no_live(),
        Vec::new(),
        remote(vec![transcript("remote-1", "remote.txt", 1)], Vec::new()),
    );
    let too_many: Vec<String> = (0..=MAX_HISTORY_SESSIONS).map(|i| format!("{i}.txt")).collect();
    let error = plan_hidden_path_migration(&raw, too_many).unwrap_err();
    assert_eq!(error.code, "HISTORY_MIGRATION_TOO_LARGE");
    assert_eq!(error.message, "Hidden history migration accepts at most 500 paths.");

    let (identities, migration) =
        plan_hidden_path_migration(&raw, vec!["remote.txt".into(), "".into()]).unwrap();
    assert_eq!(identities, vec![raw.sessions[0].identity()]);
    assert_eq!(migration.migrated_output_paths, ["remote.txt"]);

    let (identities, migration) = plan_hidden_path_migration(&raw, Vec::new()).unwrap();
    assert!(identities.is_empty());
    assert!(migration.migrated_output_paths.is_empty());
}

#[test]
fn an_unreadable_visibility_store_hides_nothing_and_warns() {
    let raw = collect_history_catalog(
        no_live(),
        Vec::new(),
        remote(vec![transcript("remote-1", "remote.txt", 1)], vec!["old".into()]),
    );
    let hidden = vec![raw.sessions[0].identity()];
    let same = collect_history_catalog(
        no_live(),
        Vec::new(),
        remote(vec![transcript("remote-1", "remote.txt", 1)], vec!["old".into()]),
    );

    let visible = project_with_visibility(raw, Ok(hidden));
    assert!(visible.sessions.is_empty());
    assert_eq!(visible.maintenance_warnings, ["old"]);

    let visible = project_with_visibility(same, Err("locked".into()));
    assert_eq!(visible.sessions.len(), 1);
    assert_eq!(
        visible.maintenance_warnings,
        ["old", "Hidden history preferences are unavailable: locked"]
    );
}

#[test]
fn history_errors_keep_their_codes() {
    assert!(ensure_history_authorized("main").is_ok());
    let error = ensure_history_authorized("live-overlay").unwrap_err();
    assert_eq!(error.code, "HISTORY_FORBIDDEN");
    assert_eq!(error.message, "Command is not available from this window.");
    let error = history_visibility_error("disk full".into());
    assert_eq!((error.code.as_str(), error.message.as_str()), ("HISTORY_VISIBILITY_ERROR", "disk full"));
    let error = history_error("unreadable".into());
    assert_eq!((error.code.as_str(), error.message.as_str()), ("HISTORY_CATALOG_ERROR", "unreadable"));
}

#[test]
fn path_identities_normalize_windows_paths_only() {
    assert_eq!(history_path_identity("/Users/A/./b.txt"), "/Users/A/./b.txt");
    assert_eq!(history_path_identity(r"C:\Yap\remote.txt"), r"c:\yap\remote.txt");
    assert_eq!(history_path_identity("c:/yap/./remote.txt"), r"c:\yap\remote.txt");
    assert_eq!(history_path_identity(r"C:\Yap\..\..\remote.txt"), r"c:\remote.txt");
    assert_eq!(history_path_identity(r"\\?\C:\Yap\a.txt"), r"c:\yap\a.txt");
    assert_eq!(history_path_identity(r"\\?\UNC\Server\Share\a.txt"), r"\\server\share\a.txt");
    assert_eq!(history_path_identity(r"\\Server\Share\..\a.txt"), r"\\server\share\a.txt");
}
