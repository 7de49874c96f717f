use yap_capture::commands::{
    admit_transcript_read, is_transcript_path, is_yap_media_or_transcript_path, polished_path,
    RecordingPlaybackAdmission,
};

#[test]
fn read_text_file_rejects_non_transcripts() {
    assert!(admit_transcript_read("recording.mp3").is_err());
}

#[test]
fn transcript_reads_admit_only_text_transcripts() {
    assert_eq!(admit_transcript_read("live/take.txt"), Ok(()));
    assert_eq!(admit_transcript_read("take.TXT"), Ok(()));
    assert_eq!(
        admit_transcript_read("notes.json"),
        Err("Only transcript text files can be read.".to_string())
    );
    assert!(is_transcript_path("live-105.polished.txt"));
    assert!(!is_transcript_path("txt"));
}

#[test]
fn app_open_path_allows_only_recordings_and_transcripts() {
    assert!(is_yap_media_or_transcript_path("recording.mp3"));
    assert!(is_yap_media_or_transcript_path("recording.MP4"));
    assert!(is_yap_media_or_transcript_path("recording.txt"));
    assert!(!is_yap_media_or_transcript_path("script.ps1"));
}

#[test]
fn polished_path_writes_sibling_file() {
    let path = polished_path("C:/recordings/take.txt").unwrap();
    assert_eq!(std::path::Path::new(&path).file_name().unwrap(), "take.polished.txt");
}

#[test]
fn polished_path_keeps_directory_and_stem() {
    assert_eq!(polished_path("C:/recordings/take.txt"), Some("C:/recordings/take.polished.txt".to_string()));
    assert_eq!(polished_path("a\\b.c\\live-1.txt"), Some("a\\b.c\\live-1.polished.txt".to_string()));
    assert_eq!(polished_path("notes"), Some("notes.polished.txt".to_string()));
    assert_eq!(polished_path(".hidden"), Some(".hidden.polished.txt".to_string()));
    assert_eq!(polished_path("dir/"), None);
    assert_eq!(polished_path(""), None);
}

#[test]
fn playback_admission_carries_its_three_fields() {
    let admission = RecordingPlaybackAdmission {
        playback_path: "http://127.0.0.1:1/p".to_string(),
        byte_length: "8".to_string(),
        waveform_eligible: true,
    };
    assert_eq!(admission.byte_length, "8");
    assert!(admission.waveform_eligible);
}
