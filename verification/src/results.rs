//! Speaker and transcript result revisions bound to one capture sidecar.
//!
//! A chain of revisions starts at revision 1 with no predecessor, then grows
//! one revision at a time, each naming its predecessor's hash and keeping the
//! capture sidecar hash of the chain unchanged.

use vstd::prelude::*;
use crate::session::SessionId;
use crate::text::{is_sha256_hex, same_text, sha256_hex_text};

verus! {

/// Who stands behind a result.
#[derive(Debug, Clone, Copy, PartialEq, Eq, Structural)]
pub enum ResultAuthority {
    LocalProvisional,
    LocalReconciled,
    ServerAuthoritative,
    UserCorrected,
}

/// Whether a result covers the whole capture.
#[derive(Debug, Clone, Copy, PartialEq, Eq, Structural)]
pub enum ResultStatus {
    Complete,
    Partial,
}

/// Why a result revision was refused.
#[derive(Debug, Clone, Copy, PartialEq, Eq, Structural)]
pub enum ResultRevisionError {
    InvalidCaptureHash,
    MissingPreviousResultHash,
    InvalidPreviousResultHash,
    UnexpectedPreviousResultHash,
    NonMonotonicRevision,
    RevisionOverflow,
    CaptureHashChanged,
    NamedAttributionRequiresServerAuthority,
}

/// The speaker a client attributed a turn or word to, if it named one.
#[derive(Debug, Clone, PartialEq, Eq)]
pub struct ClientSpeakerAttribution {
    pub display_name: Option<String>,
}

impl ClientSpeakerAttribution {
    /// No speaker named.
    pub fn unknown() -> (a: ClientSpeakerAttribution)
        ensures
            a.display_name is None,
    {
        ClientSpeakerAttribution { display_name: None }
    }

    /// A named speaker.
    pub fn named(display_name: String) -> (a: ClientSpeakerAttribution)
        ensures
            a.display_name == Some(display_name),
    {
        ClientSpeakerAttribution { display_name: Some(display_name) }
    }
}

/// Confidence is kept in thousandths, from 0 to 1000.
pub const MAX_CONFIDENCE_PERMILLE: u16 = 1000;

/// A span of speech attributed to one speaker.
#[derive(Debug, Clone, PartialEq, Eq)]
pub struct SpeakerTurn {
    pub turn_id: String,
    pub start_ms: u64,
    pub end_ms: u64,
    pub attribution: ClientSpeakerAttribution,
    pub confidence_permille: Option<u16>,
}

/// Whether an interval and confidence are acceptable for evidence.
pub open spec fn evidence_bounds_valid(start_ms: u64, end_ms: u64, confidence_permille: Option<u16>) -> bool {
    start_ms <= end_ms && (confidence_permille matches Some(c) ==> c <= MAX_CONFIDENCE_PERMILLE)
}

fn check_evidence_bounds(start_ms: u64, end_ms: u64, confidence_permille: Option<u16>) -> (r: bool)
    ensures
        r == evidence_bounds_valid(start_ms, end_ms, confidence_permille),
{
    start_ms <= end_ms && match confidence_permille {
        Some(c) => c <= MAX_CONFIDENCE_PERMILLE,
        None => true,
    }
}

impl SpeakerTurn {
    /// A turn whose interval is ordered and whose confidence is in range.
    pub fn new(
        turn_id: String,
        start_ms: u64,
        end_ms: u64,
        attribution: ClientSpeakerAttribution,
        confidence_permille: Option<u16>,
    ) -> (r: Result<SpeakerTurn, String>)
        ensures
            r is Ok <==> evidence_bounds_valid(start_ms, end_ms, confidence_permille),
            r matches Ok(t) ==> t.turn_id == turn_id && t.start_ms == start_ms && t.end_ms == end_ms
                && t.attribution == attribution && t.confidence_permille == confidence_permille,
    {
        if !check_evidence_bounds(start_ms, end_ms, confidence_permille) {
            return Err(String::from_str("speaker turn interval or confidence is out of range"));
        }
        Ok(SpeakerTurn { turn_id, start_ms, end_ms, attribution, confidence_permille })
    }

    /// Whether the turn names its speaker.
    pub fn has_named_attribution(&self) -> (b: bool)
        ensures
            b == (self.attribution.display_name is Some),
    {
        self.attribution.display_name.is_some()
    }
}

/// A word aligned to capture time, possibly attributed to a speaker.
#[derive(Debug, Clone, PartialEq, Eq)]
pub struct AlignedWord {
    pub word: String,
    pub start_ms: u64,
    pub end_ms: u64,
    pub attribution: ClientSpeakerAttribution,
    pub confidence_permille: Option<u16>,
}

impl AlignedWord {
    /// A word whose interval is ordered and whose confidence is in range.
    pub fn new(
        word: String,
        start_ms: u64,
        end_ms: u64,
        attribution: ClientSpeakerAttribution,
        confidence_permille: Option<u16>,
    ) -> (r: Result<AlignedWord, String>)
        ensures
            r is Ok <==> evidence_bounds_valid(start_ms, end_ms, confidence_permille),
            r matches Ok(w) ==> w.word == word && w.start_ms == start_ms && w.end_ms == end_ms
                && w.attribution == attribution && w.confidence_permille == confidence_permille,
    {
        if !check_evidence_bounds(start_ms, end_ms, confidence_permille) {
            return Err(String::from_str("aligned word interval or confidence is out of range"));
        }
        Ok(AlignedWord { word, start_ms, end_ms, attribution, confidence_permille })
    }

    /// Whether the word names its speaker.
    pub fn has_named_attribution(&self) -> (b: bool)
        ensures
            b == (self.attribution.display_name is Some),
    {
        self.attribution.display_name.is_some()
    }
}

/// The model, revision and calibration that produced a result.
#[derive(Debug, Clone, PartialEq, Eq)]
pub struct ModelRevision {
    pub model_id: String,
    pub revision: String,
    pub calibration_id: String,
}

impl ModelRevision {
    /// All three names must be nonempty.
    pub fn new(model_id: String, revision: String, calibration_id: String) -> (r: Result<ModelRevision, String>)
        ensures
            r is Ok <==> model_id@.len() > 0 && revision@.len() > 0 && calibration_id@.len() > 0,
            r matches Ok(m) ==> m.model_id == model_id && m.revision == revision && m.calibration_id == calibration_id,
    {
        if model_id.as_str().unicode_len() == 0 || revision.as_str().unicode_len() == 0
            || calibration_id.as_str().unicode_len() == 0 {
            return Err(String::from_str("model revision names must be nonempty"));
        }
        Ok(ModelRevision { model_id, revision, calibration_id })
    }
}

/// `value` must be a SHA-256 hex digest, else `error`.
pub fn validate_sha256(value: &str, error: ResultRevisionError) -> (r: Result<(), ResultRevisionError>)
    ensures
        r == (if is_sha256_hex(value@) { Ok::<(), ResultRevisionError>(()) } else { Err(error) }),
{
    if sha256_hex_text(value) {
        Ok(())
    } else {
        Err(error)
    }
}

/// The text of an optional string.
pub open spec fn text_option(o: Option<String>) -> Option<Seq<char>> {
    match o {
        Some(s) => Some(s@),
        None => None,
    }
}

/// What the first revision of a chain must satisfy.
pub open spec fn root_revision_check(
    revision: u64,
    capture_sidecar_sha256: Seq<char>,
    previous_result_sha256: Option<Seq<char>>,
) -> Result<(), ResultRevisionError> {
    if !is_sha256_hex(capture_sidecar_sha256) {
        Err(ResultRevisionError::InvalidCaptureHash)
    } else if revision != 1 {
        Err(ResultRevisionError::NonMonotonicRevision)
    } else if previous_result_sha256 is Some {
        Err(ResultRevisionError::UnexpectedPreviousResultHash)
    } else {
        Ok(())
    }
}

/// The first revision is 1, with a valid capture hash and no predecessor.
pub fn validate_root_revision(
    revision: u64,
    capture_sidecar_sha256: &str,
    previous_result_sha256: &Option<String>,
) -> (r: Result<(), ResultRevisionError>)
    ensures
        r == root_revision_check(revision, capture_sidecar_sha256@, text_option(*previous_result_sha256)),
{
    validate_sha256(capture_sidecar_sha256, ResultRevisionError::InvalidCaptureHash)?;
    if revision != 1 {
        return Err(ResultRevisionError::NonMonotonicRevision);
    }
    if previous_result_sha256.is_some() {
        return Err(ResultRevisionError::UnexpectedPreviousResultHash);
    }
    Ok(())
}

/// What a revision following `previous_revision` must satisfy.
pub open spec fn next_revision_check(
    previous_revision: u64,
    revision: u64,
    previous_capture_sidecar_sha256: Seq<char>,
    capture_sidecar_sha256: Seq<char>,
    previous_result_sha256: Seq<char>,
) -> Result<(), ResultRevisionError> {
    if previous_revision == u64::MAX {
        Err(ResultRevisionError::RevisionOverflow)
    } else if revision != previous_revision + 1 {
        Err(ResultRevisionError::NonMonotonicRevision)
    } else if capture_sidecar_sha256 != previous_capture_sidecar_sha256 {
        Err(ResultRevisionError::CaptureHashChanged)
    } else if !is_sha256_hex(capture_sidecar_sha256) {
        Err(ResultRevisionError::InvalidCaptureHash)
    } else if !is_sha256_hex(previous_result_sha256) {
        Err(ResultRevisionError::InvalidPreviousResultHash)
    } else {
        Ok(())
    }
}

/// A following revision is the next number, keeps the capture hash and names
/// a valid predecessor hash.
pub fn validate_next_revision(
    previous_revision: u64,
    revision: u64,
    previous_capture_sidecar_sha256: &str,
    capture_sidecar_sha256: &str,
    previous_result_sha256: &str,
) -> (r: Result<(), ResultRevisionError>)
    ensures
        r == next_revision_check(
            previous_revision,
            revision,
            previous_capture_sidecar_sha256@,
            capture_sidecar_sha256@,
            previous_result_sha256@,
        ),
{
    let expected = match previous_revision.checked_add(1) {
        Some(expected) => expected,
        None => return Err(ResultRevisionError::RevisionOverflow),
    };
    if revision != expected {
        return Err(ResultRevisionError::NonMonotonicRevision);
    }
    if !same_text(capture_sidecar_sha256, previous_capture_sidecar_sha256) {
        return Err(ResultRevisionError::CaptureHashChanged);
    }
    validate_sha256(capture_sidecar_sha256, ResultRevisionError::InvalidCaptureHash)?;
    validate_sha256(previous_result_sha256, ResultRevisionError::InvalidPreviousResultHash)
}

/// Whether any turn or word names a speaker.
pub open spec fn contains_named_attribution(speaker_turns: Seq<SpeakerTurn>, aligned_words: Seq<AlignedWord>) -> bool {
    (exists|i: int| 0 <= i < speaker_turns.len() && (#[trigger] speaker_turns[i]).attribution.display_name is Some)
    || (exists|i: int| 0 <= i < aligned_words.len() && (#[trigger] aligned_words[i]).attribution.display_name is Some)
}

/// Named speakers may only come from the server.
pub open spec fn named_attribution_check(
    authority: ResultAuthority,
    speaker_turns: Seq<SpeakerTurn>,
    aligned_words: Seq<AlignedWord>,
) -> Result<(), ResultRevisionError> {
    if contains_named_attribution(speaker_turns, aligned_words) && authority != ResultAuthority::ServerAuthoritative {
        Err(ResultRevisionError::NamedAttributionRequiresServerAuthority)
    } else {
        Ok(())
    }
}

/// Refuses named attributions unless the server is the authority.
pub fn validate_named_attribution_authority(
    authority: ResultAuthority,
    speaker_turns: &[SpeakerTurn],
    aligned_words: &[AlignedWord],
) -> (r: Result<(), ResultRevisionError>)
    ensures
        r == named_attribution_check(authority, speaker_turns@, aligned_words@),
{
    let mut contains_named = false;
    let mut i: usize = 0;
    while i < speaker_turns.len()
        invariant
            i <= speaker_turns.len(),
            contains_named == exists|k: int| 0 <= k < i && (#[trigger] speaker_turns@[k]).attribution.display_name is Some,
        decreases speaker_turns.len() - i,
    {
        if speaker_turns[i].has_named_attribution() {
            contains_named = true;
        }
        i = i + 1;
    }
    let mut j: usize = 0;
    while j < aligned_words.len()
        invariant
            j <= aligned_words.len(),
            contains_named == ((exists|k: int| 0 <= k < speaker_turns@.len() && (#[trigger] speaker_turns@[k]).attribution.display_name is Some)
                || (exists|k: int| 0 <= k < j && (#[trigger] aligned_words@[k]).attribution.display_name is Some)),
        decreases aligned_words.len() - j,
    {
        if aligned_words[j].has_named_attribution() {
            contains_named = true;
        }
        j = j + 1;
    }
    if contains_named && authority != ResultAuthority::ServerAuthoritative {
        return Err(ResultRevisionError::NamedAttributionRequiresServerAuthority);
    }
    Ok(())
}

/// What a revision read from the wire must satisfy: revision 1 has no
/// predecessor, later revisions name a valid one.
pub open spec fn wire_revision_check(
    revision: u64,
    capture_sidecar_sha256: Seq<char>,
    previous_result_sha256: Option<Seq<char>>,
) -> Result<(), ResultRevisionError> {
    if !is_sha256_hex(capture_sidecar_sha256) {
        Err(ResultRevisionError::InvalidCaptureHash)
    } else if revision == 1 {
        if previous_result_sha256 is None {
            Ok(())
        } else {
            Err(ResultRevisionError::UnexpectedPreviousResultHash)
        }
    } else if revision == 0 {
        Err(ResultRevisionError::NonMonotonicRevision)
    } else {
        match previous_result_sha256 {
            Some(hash) => if is_sha256_hex(hash) {
                Ok(())
            } else {
                Err(ResultRevisionError::InvalidPreviousResultHash)
            },
            None => Err(ResultRevisionError::MissingPreviousResultHash),
        }
    }
}

/// Validates the revision fields of a result read from the wire.
pub fn validate_wire_revision(
    revision: u64,
    capture_sidecar_sha256: &str,
    previous_result_sha256: &Option<String>,
) -> (r: Result<(), ResultRevisionError>)
    ensures
        r == wire_revision_check(revision, capture_sidecar_sha256@, text_option(*previous_result_sha256)),
{
    validate_sha256(capture_sidecar_sha256, ResultRevisionError::InvalidCaptureHash)?;
    if revision == 1 {
        return match previous_result_sha256 {
            None => Ok(()),
            Some(_) => Err(ResultRevisionError::UnexpectedPreviousResultHash),
        };
    }
    if revision == 0 {
        return Err(ResultRevisionError::NonMonotonicRevision);
    }
    match previous_result_sha256 {
        Some(hash) => validate_sha256(hash.as_str(), ResultRevisionError::InvalidPreviousResultHash),
        None => Err(ResultRevisionError::MissingPreviousResultHash),
    }
}

/// The chain facts every revision carries: a valid capture hash, and a valid
/// predecessor hash exactly when it is not the first revision.
pub open spec fn chain_position_valid(
    revision: u64,
    capture_sidecar_sha256: Seq<char>,
    previous_result_sha256: Option<Seq<char>>,
) -> bool {
    &&& is_sha256_hex(capture_sidecar_sha256)
    &&& revision >= 1
    &&& (revision == 1 <==> previous_result_sha256 is None)
    &&& (previous_result_sha256 matches Some(h) ==> is_sha256_hex(h))
}

/// A transcript produced for one capture, at one revision of its chain.
#[derive(Debug, PartialEq, Eq)]
pub struct TranscriptResultRevision {
    session_id: SessionId,
    revision: u64,
    authority: ResultAuthority,
    capture_sidecar_sha256: String,
    previous_result_sha256: Option<String>,
    status: ResultStatus,
    transcript: String,
    aligned_words: Vec<AlignedWord>,
    model_provenance: Vec<ModelRevision>,
}

impl TranscriptResultRevision {
    pub closed spec fn session_view(&self) -> Seq<char> { self.session_id@ }
    pub closed spec fn revision_number(&self) -> u64 { self.revision }
    pub closed spec fn authority_of(&self) -> ResultAuthority { self.authority }
    pub closed spec fn capture_hash(&self) -> Seq<char> { self.capture_sidecar_sha256@ }
    pub closed spec fn previous_hash(&self) -> Option<Seq<char>> { text_option(self.previous_result_sha256) }
    pub closed spec fn status_of(&self) -> ResultStatus { self.status }
    pub closed spec fn transcript_text(&self) -> Seq<char> { self.transcript@ }
    pub closed spec fn words(&self) -> Seq<AlignedWord> { self.aligned_words@ }
    pub closed spec fn models(&self) -> Seq<ModelRevision> { self.model_provenance@ }

    /// Every transcript revision sits validly in its chain.
    pub open spec fn wf(&self) -> bool {
        &&& chain_position_valid(self.revision_number(), self.capture_hash(), self.previous_hash())
        &&& named_attribution_check(self.authority_of(), Seq::empty(), self.words()) is Ok
    }

    #[verifier::type_invariant]
    spec fn chain_invariant(&self) -> bool {
        self.wf()
    }

    /// The first revision of a chain.
    pub fn new(
        session_id: SessionId,
        revision: u64,
        authority: ResultAuthority,
        capture_sidecar_sha256: String,
        previous_result_sha256: Option<String>,
        status: ResultStatus,
        transcript: String,
        aligned_words: Vec<AlignedWord>,
        model_provenance: Vec<ModelRevision>,
    ) -> (r: Result<TranscriptResultRevision, ResultRevisionError>)
        ensures
            r matches Err(e) ==> (root_revision_check(revision, capture_sidecar_sha256@, text_option(previous_result_sha256)) is Err
                    && root_revision_check(revision, capture_sidecar_sha256@, text_option(previous_result_sha256)) == Err::<(), ResultRevisionError>(e))
                || (root_revision_check(revision, capture_sidecar_sha256@, text_option(previous_result_sha256)) is Ok
                    && named_attribution_check(authority, Seq::empty(), aligned_words@) == Err::<(), ResultRevisionError>(e)),
            r is Ok <==> root_revision_check(revision, capture_sidecar_sha256@, text_option(previous_result_sha256)) is Ok
                && named_attribution_check(authority, Seq::empty(), aligned_words@) is Ok,
            r matches Ok(t) ==> t.wf() && t.session_view() == session_id@ && t.revision_number() == revision
                && t.authority_of() == authority && t.capture_hash() == capture_sidecar_sha256@
                && t.previous_hash() is None && t.status_of() == status && t.transcript_text() == transcript@
                && t.words() == aligned_words@ && t.models() == model_provenance@,
    {
        validate_root_revision(revision, capture_sidecar_sha256.as_str(), &previous_result_sha256)?;
        let no_turns: Vec<SpeakerTurn> = Vec::new();
        validate_named_attribution_authority(authority, no_turns.as_slice(), aligned_words.as_slice())?;
        proof {
            assert(no_turns@ =~= Seq::<SpeakerTurn>::empty());
        }
        Ok(TranscriptResultRevision {
            session_id,
            revision,
            authority,
            capture_sidecar_sha256,
            previous_result_sha256,
            status,
            transcript,
            aligned_words,
            model_provenance,
        })
    }

    /// The revision after `self`: the next number, the same capture hash, and
    /// `previous_result_sha256` naming `self`.
    pub fn next_revision(
        &self,
        revision: u64,
        authority: ResultAuthority,
        capture_sidecar_sha256: String,
        previous_result_sha256: String,
        status: ResultStatus,
        transcript: String,
        aligned_words: Vec<AlignedWord>,
        model_provenance: Vec<ModelRevision>,
    ) -> (r: Result<TranscriptResultRevision, ResultRevisionError>)
        ensures
            r matches Err(e) ==> (next_revision_check(self.revision_number(), revision, self.capture_hash(), capture_sidecar_sha256@, previous_result_sha256@) is Err
                    && next_revision_check(self.revision_number(), revision, self.capture_hash(), capture_sidecar_sha256@, previous_result_sha256@) == Err::<(), ResultRevisionError>(e))
                || (next_revision_check(self.revision_number(), revision, self.capture_hash(), capture_sidecar_sha256@, previous_result_sha256@) is Ok
                    && named_attribution_check(authority, Seq::empty(), aligned_words@) == Err::<(), ResultRevisionError>(e)),
            r is Ok <==> next_revision_check(self.revision_number(), revision, self.capture_hash(), capture_sidecar_sha256@, previous_result_sha256@) is Ok
                && named_attribution_check(authority, Seq::empty(), aligned_words@) is Ok,
            r matches Ok(t) ==> t.wf() && t.session_view() == self.session_view() && t.revision_number() == revision
                && t.authority_of() == authority && t.capture_hash() == self.capture_hash()
                && t.previous_hash() == Some(previous_result_sha256@) && t.status_of() == status
                && t.transcript_text() == transcript@ && t.words() == aligned_words@ && t.models() == model_provenance@,
    {
        proof {
            use_type_invariant(self);
        }
        validate_next_revision(
            self.revision,
            revision,
            self.capture_sidecar_sha256.as_str(),
            capture_sidecar_sha256.as_str(),
            previous_result_sha256.as_str(),
        )?;
        let no_turns: Vec<SpeakerTurn> = Vec::new();
        validate_named_attribution_authority(authority, no_turns.as_slice(), aligned_words.as_slice())?;
        proof {
            assert(no_turns@ =~= Seq::<SpeakerTurn>::empty());
        }
        Ok(TranscriptResultRevision {
            session_id: self.session_id.duplicate(),
            revision,
            authority,
            capture_sidecar_sha256,
            previous_result_sha256: Some(previous_result_sha256),
            status,
            transcript,
            aligned_words,
            model_provenance,
        })
    }

    /// A revision read from the wire: its revision fields must hold together
    /// and named speakers need server authority.
    pub fn from_wire(
        session_id: SessionId,
        revision: u64,
        authority: ResultAuthority,
        capture_sidecar_sha256: String,
        previous_result_sha256: Option<String>,
        status: ResultStatus,
        transcript: String,
        aligned_words: Vec<AlignedWord>,
        model_provenance: Vec<ModelRevision>,
    ) -> (r: Result<TranscriptResultRevision, ResultRevisionError>)
        ensures
            r matches Err(e) ==> (wire_revision_check(revision, capture_sidecar_sha256@, text_option(previous_result_sha256)) is Err
                    && wire_revision_check(revision, capture_sidecar_sha256@, text_option(previous_result_sha256)) == Err::<(), ResultRevisionError>(e))
                || (wire_revision_check(revision, capture_sidecar_sha256@, text_option(previous_result_sha256)) is Ok
                    && named_attribution_check(authority, Seq::empty(), aligned_words@) == Err::<(), ResultRevisionError>(e)),
            r is Ok <==> wire_revision_check(revision, capture_sidecar_sha256@, text_option(previous_result_sha256)) is Ok
                && named_attribution_check(authority, Seq::empty(), aligned_words@) is Ok,
            r matches Ok(t) ==> t.wf() && t.session_view() == session_id@ && t.revision_number() == revision
                && t.authority_of() == authority && t.capture_hash() == capture_sidecar_sha256@
                && t.previous_hash() == text_option(previous_result_sha256) && t.status_of() == status
                && t.transcript_text() == transcript@ && t.words() == aligned_words@ && t.models() == model_provenance@,
    {
        validate_wire_revision(revision, capture_sidecar_sha256.as_str(), &previous_result_sha256)?;
        let no_turns: Vec<SpeakerTurn> = Vec::new();
        validate_named_attribution_authority(authority, no_turns.as_slice(), aligned_words.as_slice())?;
        proof {
            assert(no_turns@ =~= Seq::<SpeakerTurn>::empty());
        }
        Ok(TranscriptResultRevision {
            session_id,
            revision,
            authority,
            capture_sidecar_sha256,
            previous_result_sha256,
            status,
            transcript,
            aligned_words,
            model_provenance,
        })
    }
}

/// Speaker turns produced for one capture, at one revision of its chain.
#[derive(Debug, PartialEq, Eq)]
pub struct SpeakerResultRevision {
    session_id: SessionId,
    revision: u64,
    authority: ResultAuthority,
    capture_sidecar_sha256: String,
    previous_result_sha256: Option<String>,
    status: ResultStatus,
    speaker_turns: Vec<SpeakerTurn>,
    aligned_words: Vec<AlignedWord>,
    model_provenance: Vec<ModelRevision>,
}

impl SpeakerResultRevision {
    pub closed spec fn session_view(&self) -> Seq<char> { self.session_id@ }
    pub closed spec fn revision_number(&self) -> u64 { self.revision }
    pub closed spec fn authority_of(&self) -> ResultAuthority { self.authority }
    pub closed spec fn capture_hash(&self) -> Seq<char> { self.capture_sidecar_sha256@ }
    pub closed spec fn previous_hash(&self) -> Option<Seq<char>> { text_option(self.previous_result_sha256) }
    pub closed spec fn status_of(&self) -> ResultStatus { self.status }
    pub closed spec fn turns(&self) -> Seq<SpeakerTurn> { self.speaker_turns@ }
    pub closed spec fn words(&self) -> Seq<AlignedWord> { self.aligned_words@ }
    pub closed spec fn models(&self) -> Seq<ModelRevision> { self.model_provenance@ }

    /// Every speaker revision sits validly in its chain.
    pub open spec fn wf(&self) -> bool {
        &&& chain_position_valid(self.revision_number(), self.capture_hash(), self.previous_hash())
        &&& named_attribution_check(self.authority_of(), self.turns(), self.words()) is Ok
    }

    #[verifier::type_invariant]
    spec fn chain_invariant(&self) -> bool {
        self.wf()
    }

    /// The first revision of a chain.
    pub fn new(
        session_id: SessionId,
        revision: u64,
        authority: ResultAuthority,
        capture_sidecar_sha256: String,
        previous_result_sha256: Option<String>,
        status: ResultStatus,
        speaker_turns: Vec<SpeakerTurn>,
        aligned_words: Vec<AlignedWord>,
        model_provenance: Vec<ModelRevision>,
    ) -> (r: Result<SpeakerResultRevision, ResultRevisionError>)
        ensures
            r matches Err(e) ==> (root_revision_check(revision, capture_sidecar_sha256@, text_option(previous_result_sha256)) is Err
                    && root_revision_check(revision, capture_sidecar_sha256@, text_option(previous_result_sha256)) == Err::<(), ResultRevisionError>(e))
                || (root_revision_check(revision, capture_sidecar_sha256@, text_option(previous_result_sha256)) is Ok
                    && named_attribution_check(authority, speaker_turns@, aligned_words@) == Err::<(), ResultRevisionError>(e)),
            r is Ok <==> root_revision_check(revision, capture_sidecar_sha256@, text_option(previous_result_sha256)) is Ok
                && named_attribution_check(authority, speaker_turns@, aligned_words@) is Ok,
            r matches Ok(t) ==> t.wf() && t.session_view() == session_id@ && t.revision_number() == revision
                && t.authority_of() == authority && t.capture_hash() == capture_sidecar_sha256@
                && t.previous_hash() is None && t.status_of() == status && t.turns() == speaker_turns@
                && t.words() == aligned_words@ && t.models() == model_provenance@,
    {
        validate_root_revision(revision, capture_sidecar_sha256.as_str(), &previous_result_sha256)?;
        validate_named_attribution_authority(authority, speaker_turns.as_slice(), aligned_words.as_slice())?;
        Ok(SpeakerResultRevision {
            session_id,
            revision,
            authority,
            capture_sidecar_sha256,
            previous_result_sha256,
            status,
            speaker_turns,
            aligned_words,
            model_provenance,
        })
    }

    /// The revision after `self`: the next number, the same capture hash, and
    /// `previous_result_sha256` naming `self`.
    pub fn next_revision(
        &self,
        revision: u64,
        authority: ResultAuthority,
        capture_sidecar_sha256: String,
        previous_result_sha256: String,
        status: ResultStatus,
        speaker_turns: Vec<SpeakerTurn>,
        aligned_words: Vec<AlignedWord>,
        model_provenance: Vec<ModelRevision>,
    ) -> (r: Result<SpeakerResultRevision, ResultRevisionError>)
        ensures
            r matches Err(e) ==> (next_revision_check(self.revision_number(), revision, self.capture_hash(), capture_sidecar_sha256@, previous_result_sha256@) is Err
                    && next_revision_check(self.revision_number(), revision, self.capture_hash(), capture_sidecar_sha256@, previous_result_sha256@) == Err::<(), ResultRevisionError>(e))
                || (next_revision_check(self.revision_number(), revision, self.capture_hash(), capture_sidecar_sha256@, previous_result_sha256@) is Ok
                    && named_attribution_check(authority, speaker_turns@, aligned_words@) == Err::<(), ResultRevisionError>(e)),
            r is Ok <==> next_revision_check(self.revision_number(), revision, self.capture_hash(), capture_sidecar_sha256@, previous_result_sha256@) is Ok
                && named_attribution_check(authority, speaker_turns@, aligned_words@) is Ok,
            r matches Ok(t) ==> t.wf() && t.session_view() == self.session_view() && t.revision_number() == revision
                && t.authority_of() == authority && t.capture_hash() == self.capture_hash()
                && t.previous_hash() == Some(previous_result_sha256@) && t.status_of() == status
                && t.turns() == speaker_turns@ && t.words() == aligned_words@ && t.models() == model_provenance@,
    {
        proof {
            use_type_invariant(self);
        }
        validate_next_revision(
            self.revision,
            revision,
            self.capture_sidecar_sha256.as_str(),
            capture_sidecar_sha256.as_str(),
            previous_result_sha256.as_str(),
        )?;
        validate_named_attribution_authority(authority, speaker_turns.as_slice(), aligned_words.as_slice())?;
        Ok(SpeakerResultRevision {
            session_id: self.session_id.duplicate(),
            revision,
            authority,
            capture_sidecar_sha256,
            previous_result_sha256: Some(previous_result_sha256),
            status,
            speaker_turns,
            aligned_words,
            model_provenance,
        })
    }

    /// A revision read from the wire: its revision fields must hold together
    /// and named speakers need server authority.
    pub fn from_wire(
        session_id: SessionId,
        revision: u64,
        authority: ResultAuthority,
        capture_sidecar_sha256: String,
        previous_result_sha256: Option<String>,
        status: ResultStatus,
        speaker_turns: Vec<SpeakerTurn>,
        aligned_words: Vec<AlignedWord>,
        model_provenance: Vec<ModelRevision>,
    ) -> (r: Result<SpeakerResultRevision, ResultRevisionError>)
        ensures
            r matches Err(e) ==> (wire_revision_check(revision, capture_sidecar_sha256@, text_option(previous_result_sha256)) is Err
                    && wire_revision_check(revision, capture_sidecar_sha256@, text_option(previous_result_sha256)) == Err::<(), ResultRevisionError>(e))
                || (wire_revision_check(revision, capture_sidecar_sha256@, text_option(previous_result_sha256)) is Ok
                    && named_attribution_check(authority, speaker_turns@, aligned_words@) == Err::<(), ResultRevisionError>(e)),
            r is Ok <==> wire_revision_check(revision, capture_sidecar_sha256@, text_option(previous_result_sha256)) is Ok
                && named_attribution_check(authority, speaker_turns@, aligned_words@) is Ok,
            r matches Ok(t) ==> t.wf() && t.session_view() == session_id@ && t.revision_number() == revision
                && t.authority_of() == authority && t.capture_hash() == capture_sidecar_sha256@
                && t.previous_hash() == text_option(previous_result_sha256) && t.status_of() == status
                && t.turns() == speaker_turns@ && t.words() == aligned_words@ && t.models() == model_provenance@,
    {
        validate_wire_revision(revision, capture_sidecar_sha256.as_str(), &previous_result_sha256)?;
        validate_named_attribution_authority(authority, speaker_turns.as_slice(), aligned_words.as_slice())?;
        Ok(SpeakerResultRevision {
            session_id,
            revision,
            authority,
            capture_sidecar_sha256,
            previous_result_sha256,
            status,
            speaker_turns,
            aligned_words,
            model_provenance,
        })
    }
}

/// Every revision the library builds, first or later, passes the checks a
/// revision read back from the wire must pass.
pub proof fn law_built_revisions_pass_wire_checks(
    revision: u64,
    capture_sidecar_sha256: Seq<char>,
    previous_result_sha256: Option<Seq<char>>,
)
    requires
        chain_position_valid(revision, capture_sidecar_sha256, previous_result_sha256),
    ensures
        wire_revision_check(revision, capture_sidecar_sha256, previous_result_sha256) is Ok,
{
}

/// A revision accepted after a valid one keeps the chain valid, whatever it
/// carries otherwise.
pub proof fn law_next_revision_stays_in_chain(
    previous_revision: u64,
    previous_capture: Seq<char>,
    previous_predecessor: Option<Seq<char>>,
    revision: u64,
    capture_sidecar_sha256: Seq<char>,
    previous_result_sha256: Seq<char>,
)
    requires
        chain_position_valid(previous_revision, previous_capture, previous_predecessor),
        next_revision_check(previous_revision, revision, previous_capture, capture_sidecar_sha256, previous_result_sha256) is Ok,
    ensures
        chain_position_valid(revision, capture_sidecar_sha256, Some(previous_result_sha256)),
        capture_sidecar_sha256 == previous_capture,
        revision == previous_revision + 1,
{
}

} // verus!
