use yap_capture::artifacts::{
    artifact_file_name, path_for_publication, session_from_commit_artifact,
    session_from_orphan_wav_artifact, session_from_private_artifact, strip_affixes,
    validate_artifact_name, PublicationArtifact, PublicationBarrier, RecordingArtifact,
};
use yap_capture::session::{SessionId, UnixInstant};
use yap_capture::wav::{
    judge_recoverable_wav, rejection_message, wav_header_bytes, WavRejection, WAV_HEADER_BYTES,
};

fn session(value: &str) -> SessionId {
    SessionId::new(value.to_string()).unwrap()
}

#[test]
fn validates_manifest_names_as_same_directory_basename_only() {
    assert!(validate_artifact_name("live-s-a.wav").is_ok());
    for name in [
        "../live-s-a.wav",
        "C:\\live-s-a.wav",
        "/live-s-a.wav",
        "nested/live.wav",
        "..\\live-s-a.wav",
        "nested\\live.wav",
    ] {
        assert!(validate_artifact_name(name).is_err(), "{name}");
    }
}

#[test]
fn artifact_names_reject_empty_and_dot_components() {
    for name in ["", ".", ".."] {
        assert!(validate_artifact_name(name).is_err(), "{name:?}");
    }
    assert!(validate_artifact_name("...").is_ok());
    assert_eq!(
        validate_artifact_name("a/b").unwrap_err(),
        "recording artifact names must be same-directory basenames"
    );
}

#[test]
fn artifact_file_names_follow_the_session() {
    let id = session("s-a");
    let expected = [
        (RecordingArtifact::WavPart, "live-s-a.wav.part"),
        (RecordingArtifact::JournalPart, "live-s-a.capture.journal.part"),
        (RecordingArtifact::Wav, "live-s-a.wav"),
        (RecordingArtifact::Sidecar, "live-s-a.capture.json"),
        (RecordingArtifact::SidecarPart, "live-s-a.capture.json.part"),
        (RecordingArtifact::PartialSidecar, "live-s-a.capture.partial.json"),
        (RecordingArtifact::PartialSidecarPart, "live-s-a.capture.partial.json.part"),
        (RecordingArtifact::Commit, "live-s-a.commit.json"),
        (RecordingArtifact::CommitPart, "live-s-a.commit.json.part"),
    ];
    for (artifact, name) in expected {
        assert_eq!(artifact_file_name(&id, artifact), name);
    }
}

#[test]
fn publication_works_on_the_part_before_the_link_and_the_name_after() {
    assert_eq!(path_for_publication(PublicationArtifact::Audio, PublicationBarrier::BeforeHardLink), RecordingArtifact::WavPart);
    assert_eq!(path_for_publication(PublicationArtifact::Audio, PublicationBarrier::AfterHardLink), RecordingArtifact::Wav);
    assert_eq!(path_for_publication(PublicationArtifact::CompleteSidecar, PublicationBarrier::BeforeHardLink), RecordingArtifact::SidecarPart);
    assert_eq!(path_for_publication(PublicationArtifact::CompleteSidecar, PublicationBarrier::AfterHardLink), RecordingArtifact::Sidecar);
    assert_eq!(
        path_for_publication(PublicationArtifact::PartialSidecar, PublicationBarrier::BeforeHardLink),
        RecordingArtifact::PartialSidecarPart
    );
    assert_eq!(path_for_publication(PublicationArtifact::PartialSidecar, PublicationBarrier::AfterHardLink), RecordingArtifact::PartialSidecar);
    assert_eq!(path_for_publication(PublicationArtifact::Commit, PublicationBarrier::BeforeHardLink), RecordingArtifact::CommitPart);
    assert_eq!(path_for_publication(PublicationArtifact::Commit, PublicationBarrier::AfterHardLink), RecordingArtifact::Commit);
}

#[test]
fn affixes_are_stripped_only_when_both_are_present() {
    assert_eq!(strip_affixes("live-s-a.wav", "live-", ".wav"), Some("s-a".to_string()));
    assert_eq!(strip_affixes("live-.wav", "live-", ".wav"), Some(String::new()));
    assert_eq!(strip_affixes("live-s-a.json", "live-", ".wav"), None);
    assert_eq!(strip_affixes("s-a.wav", "live-", ".wav"), None);
    assert_eq!(strip_affixes("live.wav", "live-", ".wav"), None);
}

#[test]
fn private_artifacts_name_their_session() {
    for name in [
        "live-s-a.wav.part",
        "live-s-a.capture.journal.part",
        "live-s-a.capture.json.part",
        "live-s-a.capture.partial.json",
        "live-s-a.capture.partial.json.part",
        "live-s-a.commit.json.part",
    ] {
        let id = session_from_private_artifact(name).expect(name);
        assert_eq!(id.as_str(), "s-a");
    }
    for name in ["live-s-a.wav", "live-s-a.capture.json", "live-.wav.part", "other.wav.part"] {
        assert!(session_from_private_artifact(name).is_none(), "{name}");
    }
}

#[test]
fn commit_manifests_name_their_session() {
    assert_eq!(
        session_from_commit_artifact("live-s-a.commit.json").unwrap().as_str(),
        "s-a"
    );
    assert!(session_from_commit_artifact("live-s-a.commit.json.part").is_none());
    assert!(session_from_commit_artifact("live-bad id.commit.json").is_none());
}

#[test]
fn orphan_wavs_are_claimed_only_for_current_writer_ids() {
    let generated = SessionId::generate_at(UnixInstant::from_unix_secs(17), 1, 1).unwrap();
    let name = format!("live-{}.wav", generated.as_str());
    let found = session_from_orphan_wav_artifact(&name).unwrap();
    assert_eq!(found.as_str(), generated.as_str());
    assert!(session_from_orphan_wav_artifact("live-s-a.wav").is_none());
    assert!(session_from_orphan_wav_artifact("live-meeting.wav").is_none());
}

#[test]
fn wav_header_has_the_recorder_format() {
    let header = wav_header_bytes(100).unwrap();
    assert_eq!(header.len(), WAV_HEADER_BYTES as usize);
    assert_eq!(&header[0..4], b"RIFF");
    assert_eq!(&header[4..8], &136u32.to_le_bytes());
    assert_eq!(&header[8..16], b"WAVEfmt ");
    assert_eq!(&header[16..20], &16u32.to_le_bytes());
    assert_eq!(&header[20..24], &[1, 0, 1, 0]);
    assert_eq!(&header[24..28], &16_000u32.to_le_bytes());
    assert_eq!(&header[28..32], &32_000u32.to_le_bytes());
    assert_eq!(&header[32..36], &[2, 0, 16, 0]);
    assert_eq!(&header[36..40], b"data");
    assert_eq!(&header[40..44], &100u32.to_le_bytes());
}

#[test]
fn wav_header_refuses_lengths_past_the_32_bit_fields() {
    assert!(wav_header_bytes(u32::MAX as u64 - 36).is_ok());
    assert!(wav_header_bytes(u32::MAX as u64 - 35).is_err());
    assert!(wav_header_bytes(u64::MAX).is_err());
}

#[test]
fn written_headers_read_back_as_finalized_or_placeholder_audio() {
    let finalized = wav_header_bytes(100).unwrap();
    assert_eq!(judge_recoverable_wav(144, &finalized), Ok((100, false)));
    let placeholder = wav_header_bytes(0).unwrap();
    assert_eq!(judge_recoverable_wav(44, &placeholder), Ok((0, true)));
    assert_eq!(judge_recoverable_wav(54, &placeholder), Ok((10, true)));
}

#[test]
fn each_wav_rejection_has_an_input() {
    let header = wav_header_bytes(100).unwrap();
    assert_eq!(
        judge_recoverable_wav(43, &Vec::new()),
        Err(WavRejection::ShorterThanHeader)
    );
    let mut not_pcm = header.clone();
    not_pcm[22] = 2;
    assert_eq!(judge_recoverable_wav(144, &not_pcm), Err(WavRejection::NotRecorderPcm));
    assert_eq!(judge_recoverable_wav(145, &header), Err(WavRejection::UnalignedData));
    assert_eq!(judge_recoverable_wav(146, &header), Err(WavRejection::LengthMismatch));
}

#[test]
fn wav_rejections_explain_themselves_after_the_label() {
    assert_eq!(
        rejection_message("Live WAV", WavRejection::ShorterThanHeader),
        "Live WAV is shorter than a WAV header"
    );
    assert_eq!(
        rejection_message("Live WAV", WavRejection::NotRecorderPcm),
        "Live WAV is not Yap PCM mono 16 kHz 16-bit WAV audio"
    );
    assert_eq!(
        rejection_message("Live WAV", WavRejection::UnalignedData),
        "Live WAV has an unaligned PCM data length"
    );
    assert_eq!(
        rejection_message("Live WAV", WavRejection::LengthMismatch),
        "Live WAV header lengths do not match its opened file length"
    );
}
