//! Names of a recording's on-disk artifacts and how a directory listing is
//! read back into sessions.

use vstd::prelude::*;
use crate::session::{SessionId, valid_opaque_id, MAX_SESSION_ID_CHARS, is_current_writer_text};
use crate::text::{chars_of, string_from_chars, sub_chars};

verus! {

/// A same-directory basename: nonempty, without `/`, a backslash or `:`, and
/// neither `.` nor `..`. The rule is deliberately the same on every
/// platform: a name accepted on one is a single normal path component on
/// all of them, so a recording written on Unix cannot name a file outside
/// its folder when read on Windows, where a backslash separates components.
/// The recorder never writes a name with a backslash.
pub open spec fn is_artifact_basename(name: Seq<char>) -> bool {
    &&& name.len() > 0
    &&& forall|i: int| 0 <= i < name.len() ==> #[trigger] name[i] != '/' && name[i] != '\\' && name[i] != ':'
    &&& name != seq!['.']
    &&& name != seq!['.', '.']
}

/// Recording artifacts are named by bare file names in the recordings folder.
pub fn validate_artifact_name(value: &str) -> (r: Result<(), String>)
    ensures
        r is Ok <==> is_artifact_basename(value@),
        r matches Err(e) ==> e@ == "recording artifact names must be same-directory basenames"@,
{
    let chars = chars_of(value);
    let n = chars.len();
    let mut ok = n > 0;
    let mut i: usize = 0;
    while i < n
        invariant
            chars@ == value@,
            n == chars.len(),
            i <= n,
            ok == (n > 0 && forall|k: int| 0 <= k < i ==> #[trigger] chars@[k] != '/' && chars@[k] != '\\'
                && chars@[k] != ':'),
        decreases n - i,
    {
        if chars[i] == '/' || chars[i] == '\\' || chars[i] == ':' {
            ok = false;
        }
        i = i + 1;
    }
    if n == 1 && chars[0] == '.' {
        ok = false;
        proof {
            assert(value@ =~= seq!['.']);
        }
    }
    if n == 2 && chars[0] == '.' && chars[1] == '.' {
        ok = false;
        proof {
            assert(value@ =~= seq!['.', '.']);
        }
    }
    if ok {
        Ok(())
    } else {
        Err(String::from_str("recording artifact names must be same-directory basenames"))
    }
}

/// The artifacts one recording session writes.
#[derive(Debug, Clone, Copy, PartialEq, Eq, Structural)]
pub enum RecordingArtifact {
    WavPart,
    JournalPart,
    Wav,
    Sidecar,
    SidecarPart,
    PartialSidecar,
    PartialSidecarPart,
    Commit,
    CommitPart,
}

/// What follows `live-<session>` in an artifact's name.
pub open spec fn artifact_suffix(artifact: RecordingArtifact) -> Seq<char> {
    match artifact {
        RecordingArtifact::WavPart => ".wav.part"@,
        RecordingArtifact::JournalPart => ".capture.journal.part"@,
        RecordingArtifact::Wav => ".wav"@,
        RecordingArtifact::Sidecar => ".capture.json"@,
        RecordingArtifact::SidecarPart => ".capture.json.part"@,
        RecordingArtifact::PartialSidecar => ".capture.partial.json"@,
        RecordingArtifact::PartialSidecarPart => ".capture.partial.json.part"@,
        RecordingArtifact::Commit => ".commit.json"@,
        RecordingArtifact::CommitPart => ".commit.json.part"@,
    }
}

/// `live-<session><suffix>`.
pub open spec fn session_artifact_name(session: Seq<char>, suffix: Seq<char>) -> Seq<char> {
    "live-"@ + session + suffix
}

fn suffix_text(artifact: RecordingArtifact) -> (s: &'static str)
    ensures
        s@ == artifact_suffix(artifact),
{
    match artifact {
        RecordingArtifact::WavPart => ".wav.part",
        RecordingArtifact::JournalPart => ".capture.journal.part",
        RecordingArtifact::Wav => ".wav",
        RecordingArtifact::Sidecar => ".capture.json",
        RecordingArtifact::SidecarPart => ".capture.json.part",
        RecordingArtifact::PartialSidecar => ".capture.partial.json",
        RecordingArtifact::PartialSidecarPart => ".capture.partial.json.part",
        RecordingArtifact::Commit => ".commit.json",
        RecordingArtifact::CommitPart => ".commit.json.part",
    }
}

/// The file name of one of a session's artifacts.
pub fn artifact_file_name(session_id: &SessionId, artifact: RecordingArtifact) -> (name: String)
    ensures
        name@ == session_artifact_name(session_id@, artifact_suffix(artifact)),
{
    let mut name = String::from_str("live-");
    name.append(session_id.as_str());
    name.append(suffix_text(artifact));
    name
}

/// Artifacts that are published by hard-linking a staged file.
#[derive(Debug, Clone, Copy, PartialEq, Eq, Structural)]
pub enum PublicationArtifact {
    Audio,
    CompleteSidecar,
    PartialSidecar,
    Commit,
}

/// The two sides of a publication's hard link.
#[derive(Debug, Clone, Copy, PartialEq, Eq, Structural)]
pub enum PublicationBarrier {
    BeforeHardLink,
    AfterHardLink,
}

/// Which file a publication step works on: the staged part before the hard
/// link, the published name after it.
pub open spec fn publication_path(artifact: PublicationArtifact, barrier: PublicationBarrier) -> RecordingArtifact {
    match (artifact, barrier) {
        (PublicationArtifact::CompleteSidecar, PublicationBarrier::BeforeHardLink) => RecordingArtifact::SidecarPart,
        (PublicationArtifact::CompleteSidecar, PublicationBarrier::AfterHardLink) => RecordingArtifact::Sidecar,
        (PublicationArtifact::PartialSidecar, PublicationBarrier::BeforeHardLink) => RecordingArtifact::PartialSidecarPart,
        (PublicationArtifact::PartialSidecar, PublicationBarrier::AfterHardLink) => RecordingArtifact::PartialSidecar,
        (PublicationArtifact::Commit, PublicationBarrier::BeforeHardLink) => RecordingArtifact::CommitPart,
        (PublicationArtifact::Commit, PublicationBarrier::AfterHardLink) => RecordingArtifact::Commit,
        (PublicationArtifact::Audio, PublicationBarrier::BeforeHardLink) => RecordingArtifact::WavPart,
        (PublicationArtifact::Audio, PublicationBarrier::AfterHardLink) => RecordingArtifact::Wav,
    }
}

pub fn path_for_publication(artifact: PublicationArtifact, barrier: PublicationBarrier) -> (r: RecordingArtifact)
    ensures
        r == publication_path(artifact, barrier),
{
    match (artifact, barrier) {
        (PublicationArtifact::CompleteSidecar, PublicationBarrier::BeforeHardLink) => RecordingArtifact::SidecarPart,
        (PublicationArtifact::CompleteSidecar, PublicationBarrier::AfterHardLink) => RecordingArtifact::Sidecar,
        (PublicationArtifact::PartialSidecar, PublicationBarrier::BeforeHardLink) => RecordingArtifact::PartialSidecarPart,
        (PublicationArtifact::PartialSidecar, PublicationBarrier::AfterHardLink) => RecordingArtifact::PartialSidecar,
        (PublicationArtifact::Commit, PublicationBarrier::BeforeHardLink) => RecordingArtifact::CommitPart,
        (PublicationArtifact::Commit, PublicationBarrier::AfterHardLink) => RecordingArtifact::Commit,
        (PublicationArtifact::Audio, PublicationBarrier::BeforeHardLink) => RecordingArtifact::WavPart,
        (PublicationArtifact::Audio, PublicationBarrier::AfterHardLink) => RecordingArtifact::Wav,
    }
}

/// What lies between `prefix` and `suffix` when `s` starts and ends with them.
pub open spec fn affix_middle(s: Seq<char>, prefix: Seq<char>, suffix: Seq<char>) -> Option<Seq<char>> {
    if s.len() >= prefix.len() + suffix.len()
        && s.subrange(0, prefix.len() as int) == prefix
        && s.subrange(s.len() - suffix.len(), s.len() as int) == suffix {
        Some(s.subrange(prefix.len() as int, s.len() - suffix.len()))
    } else {
        None
    }
}

fn chars_match_at(s: &Vec<char>, at: usize, part: &Vec<char>) -> (r: bool)
    requires
        at + part.len() <= s.len(),
    ensures
        r == (s@.subrange(at as int, at + part.len()) == part@),
{
    let mut i: usize = 0;
    while i < part.len()
        invariant
            at + part.len() <= s.len(),
            i <= part.len(),
            forall|k: int| 0 <= k < i ==> s@[at + k] == part@[k],
        decreases part.len() - i,
    {
        if s[at + i] != part[i] {
            proof {
                assert(s@.subrange(at as int, at + part.len())[i as int] != part@[i as int]);
            }
            return false;
        }
        i = i + 1;
    }
    proof {
        assert(s@.subrange(at as int, at + part.len()) =~= part@);
    }
    true
}

/// The text between `prefix` and `suffix`, as `strip_prefix` then
/// `strip_suffix` find it.
pub fn strip_affixes(s: &str, prefix: &str, suffix: &str) -> (r: Option<String>)
    ensures
        r matches Some(m) ==> affix_middle(s@, prefix@, suffix@) == Some(m@),
        r is None ==> affix_middle(s@, prefix@, suffix@) is None,
{
    let sv = chars_of(s);
    let pv = chars_of(prefix);
    let qv = chars_of(suffix);
    if sv.len() < pv.len() || sv.len() - pv.len() < qv.len() {
        return None;
    }
    if !chars_match_at(&sv, 0, &pv) {
        return None;
    }
    if !chars_match_at(&sv, sv.len() - qv.len(), &qv) {
        return None;
    }
    let middle = sub_chars(&sv, pv.len(), sv.len() - qv.len());
    Some(string_from_chars(middle.as_slice()))
}

/// The suffixes of a session's private, unpublished or partial artifacts.
pub open spec fn private_suffix(k: int) -> Seq<char> {
    if k == 0 { artifact_suffix(RecordingArtifact::WavPart) }
    else if k == 1 { artifact_suffix(RecordingArtifact::JournalPart) }
    else if k == 2 { artifact_suffix(RecordingArtifact::SidecarPart) }
    else if k == 3 { artifact_suffix(RecordingArtifact::PartialSidecar) }
    else if k == 4 { artifact_suffix(RecordingArtifact::PartialSidecarPart) }
    else { artifact_suffix(RecordingArtifact::CommitPart) }
}

/// The session a name of the form `live-<session><suffix>` belongs to.
pub open spec fn session_with_suffix(name: Seq<char>, suffix: Seq<char>) -> Option<Seq<char>> {
    match affix_middle(name, "live-"@, suffix) {
        Some(id) => if valid_opaque_id(id, MAX_SESSION_ID_CHARS as nat) { Some(id) } else { None },
        None => None,
    }
}

/// The first private suffix, in the listed order, naming a valid session.
pub open spec fn private_artifact_session(name: Seq<char>) -> Option<Seq<char>>
{
    private_artifact_session_from(name, 0)
}

pub open spec fn private_artifact_session_from(name: Seq<char>, k: nat) -> Option<Seq<char>>
    decreases 6 - k,
{
    if k >= 6 {
        None
    } else {
        match session_with_suffix(name, private_suffix(k as int)) {
            Some(id) => Some(id),
            None => private_artifact_session_from(name, k + 1),
        }
    }
}

fn session_with_suffix_exec(name: &str, artifact: RecordingArtifact) -> (r: Option<SessionId>)
    ensures
        r matches Some(id) ==> session_with_suffix(name@, artifact_suffix(artifact)) == Some(id@),
        r is None ==> session_with_suffix(name@, artifact_suffix(artifact)) is None,
{
    match strip_affixes(name, "live-", suffix_text(artifact)) {
        Some(middle) => match SessionId::new(middle) {
            Ok(id) => Some(id),
            Err(_) => None,
        },
        None => None,
    }
}

/// The session of a private artifact (`.wav.part`, `.capture.journal.part`,
/// `.capture.json.part`, `.capture.partial.json`, `.capture.partial.json.part`
/// or `.commit.json.part`), if the name holds a valid one.
pub fn session_from_private_artifact(name: &str) -> (r: Option<SessionId>)
    ensures
        r matches Some(id) ==> private_artifact_session(name@) == Some(id@),
        r is None ==> private_artifact_session(name@) is None,
{
    proof {
        reveal_with_fuel(private_artifact_session_from, 7);
    }
    let order = [
        RecordingArtifact::WavPart,
        RecordingArtifact::JournalPart,
        RecordingArtifact::SidecarPart,
        RecordingArtifact::PartialSidecar,
        RecordingArtifact::PartialSidecarPart,
        RecordingArtifact::CommitPart,
    ];
    let mut k: usize = 0;
    while k < 6
        invariant
            k <= 6,
            forall|j: int| 0 <= j < 6 ==> artifact_suffix(#[trigger] order@[j]) == private_suffix(j),
            private_artifact_session(name@) == private_artifact_session_from(name@, k as nat),
        decreases 6 - k,
    {
        proof {
            assert(artifact_suffix(order@[k as int]) == private_suffix(k as int));
        }
        match session_with_suffix_exec(name, order[k]) {
            Some(id) => return Some(id),
            None => {},
        }
        k = k + 1;
    }
    None
}

/// The session of a published WAV whose session identifier has the shape the
/// current writer generates.
pub open spec fn orphan_wav_session(name: Seq<char>) -> Option<Seq<char>> {
    match session_with_suffix(name, artifact_suffix(RecordingArtifact::Wav)) {
        Some(id) => if is_current_writer_text(id) { Some(id) } else { None },
        None => None,
    }
}

pub fn session_from_orphan_wav_artifact(name: &str) -> (r: Option<SessionId>)
    ensures
        r matches Some(id) ==> orphan_wav_session(name@) == Some(id@),
        r is None ==> orphan_wav_session(name@) is None,
{
    match session_with_suffix_exec(name, RecordingArtifact::Wav) {
        Some(id) => if id.is_current_writer_id() { Some(id) } else { None },
        None => None,
    }
}

/// The session of a commit manifest's name.
pub fn session_from_commit_artifact(name: &str) -> (r: Option<SessionId>)
    ensures
        r matches Some(id) ==> session_with_suffix(name@, artifact_suffix(RecordingArtifact::Commit)) == Some(id@),
        r is None ==> session_with_suffix(name@, artifact_suffix(RecordingArtifact::Commit)) is None,
{
    session_with_suffix_exec(name, RecordingArtifact::Commit)
}


proof fn lemma_affixes_read_back(prefix: Seq<char>, middle: Seq<char>, suffix: Seq<char>)
    ensures
        affix_middle(prefix + middle + suffix, prefix, suffix) == Some(middle),
{
    let s = prefix + middle + suffix;
    assert(s.subrange(0, prefix.len() as int) =~= prefix);
    assert(s.subrange(s.len() - suffix.len(), s.len() as int) =~= suffix);
    assert(s.subrange(prefix.len() as int, s.len() - suffix.len()) =~= middle);
}

/// A session's artifact names read back as that session: every artifact's
/// name gives the session between `live-` and its suffix; the audio part
/// is found as a private artifact of the session, the commit manifest as
/// the session's commit, and a published WAV of a current-writer session as
/// that session's orphan audio.
pub proof fn law_artifact_names_read_back(session: Seq<char>, artifact: RecordingArtifact)
    requires
        valid_opaque_id(session, MAX_SESSION_ID_CHARS as nat),
    ensures
        session_with_suffix(session_artifact_name(session, artifact_suffix(artifact)), artifact_suffix(artifact))
            == Some(session),
        private_artifact_session(session_artifact_name(session, artifact_suffix(RecordingArtifact::WavPart)))
            == Some(session),
        is_current_writer_text(session) ==> orphan_wav_session(
            session_artifact_name(session, artifact_suffix(RecordingArtifact::Wav)),
        ) == Some(session),
{
    lemma_affixes_read_back("live-"@, session, artifact_suffix(artifact));
    lemma_affixes_read_back("live-"@, session, artifact_suffix(RecordingArtifact::WavPart));
    lemma_affixes_read_back("live-"@, session, artifact_suffix(RecordingArtifact::Wav));
    reveal_with_fuel(private_artifact_session_from, 2);
}

} // verus!
