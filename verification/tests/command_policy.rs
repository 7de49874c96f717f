use yap_capture::vad::{energy_interval, VadKind};
use yap_capture::commands::{
    check_local_compute_target, check_main_workspace, ensure_main_window, local_compute_targets,
    ensure_main, ensure_main_or_overlay, ensure_main_stt, forbidden_command_window_message,
    forbidden_stt_window, invalid_recording_path_error, is_main_or_overlay_window, is_main_window,
    is_recording_extension, is_supported_recording_path, live_overlay_surface_matches_state,
    validate_recording_paths, validate_recording_extensions, is_recording_extension_of,
    check_live_setting_change, overlay_surface_request,
    LiveOverlayState, LiveSessionStatus, LiveSettingChange, LIVE_OVERLAY_WINDOW_LABEL,
    MAIN_WINDOW_LABEL, MAX_TRANSCRIBE_BATCH_PATHS,
};

fn view(status: LiveSessionStatus) -> LiveOverlayState {
    LiveOverlayState {
        status,
        error: None,
        final_text: None,
    }
}

#[test]
fn command_window_guards_keep_privileged_commands_main_only() {
    assert!(is_main_window(MAIN_WINDOW_LABEL));
    assert!(!is_main_window(LIVE_OVERLAY_WINDOW_LABEL));
    assert!(!is_main_window("settings"));

    assert!(is_main_or_overlay_window(MAIN_WINDOW_LABEL));
    assert!(is_main_or_overlay_window(LIVE_OVERLAY_WINDOW_LABEL));
    assert!(!is_main_or_overlay_window("settings"));
}

#[test]
fn unauthorized_window_errors_keep_typed_and_untyped_contracts() {
    assert_eq!(
        forbidden_command_window_message(),
        "Command is not available from this window."
    );
    let error = forbidden_stt_window();

    assert_eq!(error.code, "UNAUTHORIZED_WINDOW");
    assert_eq!(error.message, "Command is not available from this window.");
}

#[test]
fn window_guards_answer_with_their_refusals() {
    assert_eq!(ensure_main("main"), Ok(()));
    assert_eq!(
        ensure_main("live-overlay"),
        Err("Command is not available from this window.".to_string())
    );
    assert_eq!(ensure_main_or_overlay("live-overlay"), Ok(()));
    assert!(ensure_main_or_overlay("settings").is_err());
    assert_eq!(ensure_main_stt("main"), Ok(()));
    assert_eq!(ensure_main_stt("settings").unwrap_err().code, "UNAUTHORIZED_WINDOW");
}

#[test]
fn recording_path_validation_bounds_batch_size() {
    let paths = (0..=MAX_TRANSCRIBE_BATCH_PATHS)
        .map(|index| format!("C:/recording-{index}.wav"))
        .collect::<Vec<_>>();

    let error = validate_recording_paths(&paths).unwrap_err();

    assert_eq!(
        error.message,
        "Too many recordings queued. Add fewer files at once."
    );
}

#[test]
fn recording_paths_need_a_media_extension() {
    let accepted = vec!["meeting.WAV".to_string(), "/tmp/a.Mp3".to_string(), "x.webm".to_string()];
    assert!(validate_recording_paths(&accepted).is_ok());
    let full = (0..MAX_TRANSCRIBE_BATCH_PATHS)
        .map(|index| format!("recording-{index}.flac"))
        .collect::<Vec<_>>();
    assert!(validate_recording_paths(&full).is_ok());

    let refused = vec!["meeting.wav".to_string(), "script.ps1".to_string()];
    let error = validate_recording_paths(&refused).unwrap_err();
    assert_eq!(error.message, "Choose a supported audio or video file.");
    assert_eq!(error.code, invalid_recording_path_error("x").code);

    for path in ["noextension", "archive.wav.zip", ".wav", "dir/"] {
        assert!(!is_supported_recording_path(path), "{path}");
    }
    for path in ["meeting.WAV", "/tmp/clips/a.b.mp4", "notes/take.ogg", "x.webm"] {
        assert!(is_supported_recording_path(path), "{path}");
    }
    for extension in ["mp3", "M4A", "wav", "mp4", "FLAC", "ogg", "WebM"] {
        assert!(is_recording_extension(extension), "{extension}");
    }
    assert!(!is_recording_extension("aac"));
}

#[test]
fn active_native_sessions_reject_hidden_or_idle_surfaces() {
    for (status, allowed) in [
        (LiveSessionStatus::Armed, "initializing"),
        (LiveSessionStatus::Listening, "recording"),
        (LiveSessionStatus::Speaking, "recording"),
        (LiveSessionStatus::Settling, "processing"),
        (LiveSessionStatus::Saving, "processing"),
    ] {
        let view = view(status);
        assert!(live_overlay_surface_matches_state(&view, allowed));
        for forbidden in ["collapsed", "expanded", "success", "feedback"] {
            assert!(
                !live_overlay_surface_matches_state(&view, forbidden),
                "{status:?} accepted {forbidden}"
            );
        }
    }
}

#[test]
fn idle_and_blocked_surfaces_remain_bound_to_native_state() {
    let idle = view(LiveSessionStatus::Idle);
    assert!(live_overlay_surface_matches_state(&idle, "collapsed"));
    assert!(live_overlay_surface_matches_state(&idle, "expanded"));
    assert!(!live_overlay_surface_matches_state(&idle, "success"));
    assert!(!live_overlay_surface_matches_state(&idle, "feedback"));

    let mut success = idle.clone();
    success.final_text = Some("saved".into());
    assert!(live_overlay_surface_matches_state(&success, "success"));

    let mut feedback = idle;
    feedback.error = Some("microphone unavailable".into());
    assert!(live_overlay_surface_matches_state(&feedback, "feedback"));
    assert!(!live_overlay_surface_matches_state(&feedback, "collapsed"));

    let blocked = view(LiveSessionStatus::Blocked);
    assert!(live_overlay_surface_matches_state(&blocked, "feedback"));
    assert!(!live_overlay_surface_matches_state(&blocked, "collapsed"));
}

#[test]
fn blank_final_text_is_no_success() {
    let mut blank = view(LiveSessionStatus::Idle);
    blank.final_text = Some(" \t\n\u{3000}".into());
    assert!(!live_overlay_surface_matches_state(&blank, "success"));
    blank.final_text = Some("  ok ".into());
    assert!(live_overlay_surface_matches_state(&blank, "success"));
    assert!(!live_overlay_surface_matches_state(&blank, "unknown"));
}

#[test]
fn file_actions_and_workspaces_follow_the_window_policy() {
    assert_eq!(ensure_main_window("main"), Ok(()));
    assert_eq!(
        ensure_main_window("live-overlay"),
        Err("This file action is only available from the main window.".to_string())
    );
    assert_eq!(check_main_workspace("live-overlay", "polish"), Ok(()));
    assert_eq!(check_main_workspace("main", "home"), Ok(()));
    assert_eq!(
        check_main_workspace("main", "settings"),
        Err("Unsupported workspace.".to_string())
    );
    assert_eq!(
        check_main_workspace("settings", "home"),
        Err("Command is not available from this window.".to_string())
    );
}

#[test]
fn local_compute_lists_two_targets_with_one_selected() {
    let cpu = local_compute_targets("cpu");
    assert_eq!(cpu.len(), 2);
    assert_eq!((cpu[0].id.as_str(), cpu[0].label.as_str(), cpu[0].selected), ("auto", "Auto (CPU)", false));
    assert_eq!((cpu[1].id.as_str(), cpu[1].label.as_str(), cpu[1].selected), ("cpu", "CPU", true));
    let unknown = local_compute_targets("cuda:0");
    assert!(unknown[0].selected && !unknown[1].selected);
    assert!(local_compute_targets("auto")[0].selected);

    assert_eq!(
        check_local_compute_target(true, "cpu"),
        Err("Stop live before changing local compute.".to_string())
    );
    assert_eq!(
        check_local_compute_target(false, "gpu"),
        Err("Compute target unavailable.".to_string())
    );
    assert_eq!(check_local_compute_target(false, "auto"), Ok(()));
}

#[test]
fn energy_blocks_cover_their_samples_and_pad_speech() {
    assert_eq!(energy_interval(1_600, 16_000, 1_000, true, 250), (VadKind::Speech, 1_350));
    assert_eq!(energy_interval(1_600, 16_000, 1_000, false, 250), (VadKind::Silence, 1_100));
    assert_eq!(energy_interval(15, 16_000, 7, false, 0), (VadKind::Silence, 7));
    assert_eq!(energy_interval(10, 0, 7, true, 10), (VadKind::Error, 7));
    assert_eq!(energy_interval(0, 16_000, u64::MAX, true, 1), (VadKind::Error, u64::MAX));
    assert_eq!(energy_interval(0, 16_000, u64::MAX, false, 1), (VadKind::Silence, u64::MAX));
}

#[test]
fn live_settings_change_only_while_no_live_session_runs() {
    for change in [
        LiveSettingChange::HideOverlay,
        LiveSettingChange::CaptureMode,
        LiveSettingChange::InputDevice,
    ] {
        assert_eq!(check_live_setting_change(false, change), Ok(()));
    }
    assert_eq!(
        check_live_setting_change(true, LiveSettingChange::HideOverlay),
        Err("Stop live before hiding the pill.".to_string())
    );
    assert_eq!(
        check_live_setting_change(true, LiveSettingChange::CaptureMode),
        Err("Stop live before changing live mode.".to_string())
    );
    assert_eq!(
        check_live_setting_change(true, LiveSettingChange::InputDevice),
        Err("Stop live before changing microphones.".to_string())
    );
}

#[test]
fn hidden_idle_overlay_ignores_surface_requests_and_active_ones_are_checked() {
    let idle = view(LiveSessionStatus::Idle);
    assert_eq!(overlay_surface_request(true, false, &idle, "recording"), Ok(false));
    assert_eq!(overlay_surface_request(false, false, &idle, "collapsed"), Ok(true));
    assert_eq!(
        overlay_surface_request(false, false, &idle, "recording"),
        Err("Live overlay surface does not match native session state.".to_string())
    );
    let listening = view(LiveSessionStatus::Listening);
    assert_eq!(overlay_surface_request(true, true, &listening, "recording"), Ok(true));
    assert!(overlay_surface_request(true, true, &listening, "collapsed").is_err());
}

#[test]
fn batch_extensions_are_checked_after_the_batch_size() {
    let found = vec![Some("WAV".to_string()), Some("webm".to_string())];
    assert!(validate_recording_extensions(&found).is_ok());
    assert!(is_recording_extension_of(&Some("Mp3".to_string())));
    assert!(!is_recording_extension_of(&None));

    let refused = validate_recording_extensions(&vec![Some("wav".to_string()), None]).unwrap_err();
    assert_eq!(refused.message, "Choose a supported audio or video file.");

    let oversized = vec![None; MAX_TRANSCRIBE_BATCH_PATHS + 1];
    let error = validate_recording_extensions(&oversized).unwrap_err();
    assert_eq!(error.message, "Too many recordings queued. Add fewer files at once.");
    assert_eq!(error.code, "AUDIO_DECODE");
}
