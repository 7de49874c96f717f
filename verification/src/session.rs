//! Recording identities, capture-track descriptors and session metadata.

use vstd::prelude::*;
use vstd::string::*;
use crate::text::{
    ascii_alnum, ascii_alpha, ascii_hex, chars_of, char_vecs_match, digit_char, is_ascii_alnum_char,
    is_ascii_alpha_char, is_ascii_hex_char, radix_chars, radix_text, split_chars, split_on,
    string_from_chars, sub_chars, lemma_radix_text_hex, lemma_radix16_len, lemma_u128_below_pow16_32,
};

verus! {

/// A character allowed in opaque identifiers: ASCII letter, digit, `_` or `-`.
pub open spec fn is_id_char(c: char) -> bool {
    is_ascii_alnum_char(c) || c == '_' || c == '-'
}

/// `value` is a non-empty opaque identifier of at most `max_length` characters.
pub open spec fn valid_opaque_id(value: Seq<char>, max_length: nat) -> bool {
    &&& 0 < value.len() <= max_length
    &&& forall|i: int| 0 <= i < value.len() ==> is_id_char(#[trigger] value[i])
}

/// Upper bound on session identifiers.
pub const MAX_SESSION_ID_CHARS: usize = 128;
/// Upper bound on track and install identifiers.
pub const MAX_TRACK_ID_CHARS: usize = 64;

fn all_id_chars(v: &Vec<char>) -> (b: bool)
    ensures
        b == forall|i: int| 0 <= i < v@.len() ==> is_id_char(#[trigger] v@[i]),
{
    let mut i: usize = 0;
    while i < v.len()
        invariant
            0 <= i <= v@.len(),
            forall|j: int| 0 <= j < i ==> is_id_char(#[trigger] v@[j]),
        decreases v@.len() - i,
    {
        let c = v[i];
        if !(ascii_alnum(c) || c == '_' || c == '-') {
            return false;
        }
        i = i + 1;
    }
    true
}

/// How an identifier that is not opaque is refused: `label`, then that it
/// must contain 1 to `max_length` ASCII letters, digits, `_` or `-`.
pub open spec fn opaque_id_message_text(label: Seq<char>, max_length: nat) -> Seq<char> {
    label + " must contain 1-"@ + radix_text(max_length, 10) + " ASCII letters, digits, _ or -"@
}

fn opaque_id_message(label: &str, max_length: usize) -> (m: String)
    ensures
        m@ == opaque_id_message_text(label@, max_length as nat),
{
    let mut m = String::from_str(label);
    m.append(" must contain 1-");
    let digits = radix_chars(max_length as u128, 10);
    let digits = string_from_chars(digits.as_slice());
    m.append(digits.as_str());
    m.append(" ASCII letters, digits, _ or -");
    m
}

/// Accepts `value` exactly when it is an opaque identifier of at most
/// `max_length` characters; `label` names the identifier in the error.
pub fn validate_opaque_id(value: &str, max_length: usize, label: &str) -> (r: Result<(), String>)
    ensures
        r is Ok <==> valid_opaque_id(value@, max_length as nat),
        r matches Err(e) ==> e@ == opaque_id_message_text(label@, max_length as nat),
{
    let chars = chars_of(value);
    if chars.len() == 0 || chars.len() > max_length || !all_id_chars(&chars) {
        return Err(opaque_id_message(label, max_length));
    }
    Ok(())
}

/// Durable identity of one recording session.
#[derive(Debug, Clone, PartialEq, Eq, Hash)]
pub struct SessionId(String);

impl View for SessionId {
    type V = Seq<char>;

    closed spec fn view(&self) -> Seq<char> {
        self.0@
    }
}

impl SessionId {
    pub open spec fn wf(&self) -> bool {
        valid_opaque_id(self@, MAX_SESSION_ID_CHARS as nat)
    }

    /// A session identifier is 1 to 128 ASCII letters, digits, `_` or `-`.
    pub fn new(value: String) -> (r: Result<SessionId, String>)
        ensures
            r is Ok <==> valid_opaque_id(value@, MAX_SESSION_ID_CHARS as nat),
            r matches Ok(id) ==> id@ == value@ && id.wf(),
            r matches Err(e) ==> e@ == opaque_id_message_text("session ID"@, MAX_SESSION_ID_CHARS as nat),
    {
        validate_opaque_id(value.as_str(), MAX_SESSION_ID_CHARS, "session ID")?;
        Ok(SessionId(value))
    }

    pub fn as_str(&self) -> (s: &str)
        ensures
            s@ == self@,
    {
        self.0.as_str()
    }

    /// Clones the identifier, keeping its characters.
    pub fn duplicate(&self) -> (r: SessionId)
        ensures
            r@ == self@,
            r == *self,
    {
        SessionId(self.0.clone())
    }

    /// Equality on the identifier's characters.
    pub fn same_as(&self, other: &SessionId) -> (b: bool)
        ensures
            b == (self@ == other@),
    {
        self.0 == other.0
    }
}

/// Process-local token of a running session.
#[derive(Debug, Clone, Copy, PartialEq, Eq, Hash)]
pub struct RuntimeSessionToken(pub u64);

/// Owner namespace of recordings, `local:<install id>`.
#[derive(Debug, Clone, PartialEq, Eq, Hash)]
pub struct OwnerNamespace(String);

impl View for OwnerNamespace {
    type V = Seq<char>;

    closed spec fn view(&self) -> Seq<char> {
        self.0@
    }
}

/// Identity of one capture track inside a session.
#[derive(Debug, Clone, PartialEq, Eq, Hash)]
pub struct TrackId(String);

impl View for TrackId {
    type V = Seq<char>;

    closed spec fn view(&self) -> Seq<char> {
        self.0@
    }
}

impl TrackId {
    /// A track identifier is 1 to 64 ASCII letters, digits, `_` or `-`.
    pub fn new(value: String) -> (r: Result<TrackId, String>)
        ensures
            r is Ok <==> valid_opaque_id(value@, MAX_TRACK_ID_CHARS as nat),
            r matches Ok(id) ==> id@ == value@,
            r matches Err(e) ==> e@ == opaque_id_message_text("track ID"@, MAX_TRACK_ID_CHARS as nat),
    {
        validate_opaque_id(value.as_str(), MAX_TRACK_ID_CHARS, "track ID")?;
        Ok(TrackId(value))
    }

    pub fn as_str(&self) -> (s: &str)
        ensures
            s@ == self@,
    {
        self.0.as_str()
    }

    /// Clones the identifier, keeping its characters.
    pub fn duplicate(&self) -> (r: TrackId)
        ensures
            r@ == self@,
            r == *self,
    {
        TrackId(self.0.clone())
    }

    /// Equality on the identifier's characters.
    pub fn same_as(&self, other: &TrackId) -> (b: bool)
        ensures
            b == (self@ == other@),
    {
        self.0 == other.0
    }
}


/// A generated identifier component: 1 to 32 hexadecimal digits.
pub open spec fn is_generated_component(v: Seq<char>) -> bool {
    &&& 0 < v.len() <= 32
    &&& forall|i: int| 0 <= i < v.len() ==> is_ascii_hex_char(#[trigger] v[i])
}

/// `s` has the shape `s-<hex>-<hex>-<hex>` written by the current recorder.
pub open spec fn is_current_writer_text(s: Seq<char>) -> bool {
    let parts = split_on(s, '-');
    &&& parts.len() == 4
    &&& parts[0] == seq!['s']
    &&& is_generated_component(parts[1])
    &&& is_generated_component(parts[2])
    &&& is_generated_component(parts[3])
}

fn is_generated_id_component(v: &Vec<char>) -> (b: bool)
    ensures
        b == is_generated_component(v@),
{
    if v.len() == 0 || v.len() > 32 {
        return false;
    }
    let mut i: usize = 0;
    while i < v.len()
        invariant
            0 <= i <= v@.len(),
            forall|j: int| 0 <= j < i ==> is_ascii_hex_char(#[trigger] v@[j]),
        decreases v@.len() - i,
    {
        if !ascii_hex(v[i]) {
            return false;
        }
        i = i + 1;
    }
    true
}

impl SessionId {
    /// Whether the identifier was generated by the current recorder
    /// (`s-<hex>-<hex>-<hex>`, each component 1 to 32 hex digits).
    pub fn is_current_writer_id(&self) -> (b: bool)
        ensures
            b == is_current_writer_text(self@),
    {
        let chars = chars_of(self.as_str());
        let parts = split_chars(&chars, '-');
        if parts.len() != 4 {
            return false;
        }
        let first_is_s = parts[0].len() == 1 && parts[0][0] == 's';
        proof {
            if first_is_s {
                assert(parts@[0]@ =~= seq!['s']);
            }
            assert(split_on(self@, '-')[0] == parts@[0]@);
        }
        first_is_s && is_generated_id_component(&parts[1]) && is_generated_id_component(
            &parts[2],
        ) && is_generated_id_component(&parts[3])
    }
}

/// Lowercase hexadecimal rendering of every byte (two digits per byte).
pub open spec fn hex_lower(bytes: Seq<u8>) -> Seq<char>
    decreases bytes.len(),
{
    if bytes.len() == 0 {
        Seq::<char>::empty()
    } else {
        hex_lower(bytes.drop_last()) + seq![
            digit_char((bytes.last() / 16) as nat),
            digit_char((bytes.last() % 16) as nat),
        ]
    }
}

/// Lowercase hex of the first `length` bytes of `bytes`.
pub fn hex_prefix(bytes: &[u8], length: usize) -> (s: String)
    ensures
        s@ == hex_lower(bytes@.take(if length < bytes@.len() { length as int } else { bytes@.len() as int })),
{
    let n = if length < bytes.len() { length } else { bytes.len() };
    let mut out: Vec<char> = Vec::new();
    let mut i: usize = 0;
    assert(bytes@.take(0) =~= Seq::<u8>::empty());
    while i < n
        invariant
            n <= bytes@.len(),
            0 <= i <= n,
            out@ == hex_lower(bytes@.take(i as int)),
        decreases n - i,
    {
        let b = bytes[i];
        let high = radix_digit((b / 16) as u128);
        let low = radix_digit((b % 16) as u128);
        out.push(high);
        out.push(low);
        assert(bytes@.take(i + 1).drop_last() =~= bytes@.take(i as int));
        assert(out@ =~= hex_lower(bytes@.take(i + 1)));
        i = i + 1;
    }
    string_from_chars(out.as_slice())
}

fn radix_digit(d: u128) -> (c: char)
    requires
        d < 16,
    ensures
        c == digit_char(d as nat),
{
    let v = radix_chars(d, 16);
    assert(radix_text(d as nat, 16) == seq![digit_char(d as nat)]);
    v[0]
}

impl OwnerNamespace {
    /// `local:<install id>`, where the install identifier is 1 to 64
    /// ASCII letters, digits, `_` or `-`.
    pub fn local(install_id: &str) -> (r: Result<OwnerNamespace, String>)
        ensures
            r is Ok <==> valid_opaque_id(install_id@, MAX_TRACK_ID_CHARS as nat),
            r matches Ok(ns) ==> ns@ == "local:"@ + install_id@,
            r matches Err(e) ==> e@ == opaque_id_message_text("install ID"@, MAX_TRACK_ID_CHARS as nat),
    {
        validate_opaque_id(install_id, MAX_TRACK_ID_CHARS, "install ID")?;
        let mut value = String::from_str("local:");
        value.append(install_id);
        Ok(OwnerNamespace(value))
    }

    /// Parses `local:<install id>` back into a namespace.
    pub fn from_prefixed(value: &str) -> (r: Result<OwnerNamespace, String>)
        ensures
            r is Ok <==> value@.len() >= 6 && value@.take(6) == "local:"@ && valid_opaque_id(
                value@.skip(6),
                MAX_TRACK_ID_CHARS as nat,
            ),
            r matches Ok(ns) ==> ns@ == value@,
            r matches Err(e) ==> e@ == (if value@.len() >= 6 && value@.take(6) == "local:"@ {
                opaque_id_message_text("install ID"@, MAX_TRACK_ID_CHARS as nat)
            } else {
                "owner namespace must use the local: prefix"@
            }),
    {
        proof {
            reveal_strlit("local:");
        }
        let chars = chars_of(value);
        let prefix = ['l', 'o', 'c', 'a', 'l', ':'];
        let mut matches = chars.len() >= 6;
        let mut i: usize = 0;
        while matches && i < 6
            invariant
                0 <= i <= 6,
                matches ==> chars@.len() >= 6,
                matches ==> forall|j: int| 0 <= j < i ==> chars@[j] == "local:"@[j],
                !matches ==> !(chars@.len() >= 6 && chars@.take(6) == "local:"@),
                prefix@ == "local:"@,
            decreases (6 - i) + (if matches { 1int } else { 0int }),
        {
            if chars[i] != prefix[i] {
                matches = false;
                assert(chars@.take(6)[i as int] != "local:"@[i as int]);
            } else {
                i = i + 1;
            }
        }
        if !matches {
            return Err(String::from_str("owner namespace must use the local: prefix"));
        }
        assert(chars@.take(6) =~= "local:"@);
        let rest = string_from_chars(sub_chars(&chars, 6, chars.len()).as_slice());
        let ns = OwnerNamespace::local(rest.as_str())?;
        assert(ns@ =~= value@);
        Ok(ns)
    }

    pub fn as_str(&self) -> (s: &str)
        ensures
            s@ == self@,
    {
        self.0.as_str()
    }
}


#[derive(Debug, Clone, Copy, PartialEq, Eq, Hash, Structural)]
pub enum SessionMode {
    Dictation,
    Meeting,
}

#[derive(Debug, Clone, Copy, PartialEq, Eq, Hash, Structural)]
pub enum SessionOrigin {
    LiveCapture,
    ImportedFile,
}

#[derive(Debug, Clone, Copy, PartialEq, Eq, Hash, Structural)]
pub enum TriggerMode {
    PushToTalk,
    Toggle,
}

#[derive(Debug, Clone, Copy, PartialEq, Eq, Hash, Structural)]
pub enum CaptureSource {
    Microphone,
    SystemLoopback,
}

#[derive(Debug, Clone, Copy, PartialEq, Eq, Hash, Structural)]
pub enum ImportedTrackProvenance {
    Unknown,
    Mixed,
    UserDeclared(CaptureSource),
}

/// Where a track's audio came from: a physical capture source, or an
/// imported file whose provenance is at most user-declared.
#[derive(Debug, Clone, Copy, PartialEq, Eq, Hash, Structural)]
pub enum TrackSource {
    Captured { source: CaptureSource },
    Imported { provenance: ImportedTrackProvenance },
}

/// A capture track with a privacy-preserving device identifier.
#[derive(Debug, Clone, PartialEq, Eq)]
pub struct CaptureTrackDescriptor {
    pub track_id: TrackId,
    pub source: TrackSource,
    pub device_id: String,
}

/// The SHA-256 digest of a byte sequence.
pub uninterp spec fn sha256_digest(bytes: Seq<u8>) -> Seq<u8>;

/// Computes SHA-256 with the `sha2` crate (`Sha256::digest`): the result is
/// the digest of exactly `bytes`, and SHA-256 digests are 32 bytes long.
#[verifier::external_body]
pub(crate) fn sha256_bytes(bytes: &[u8]) -> (digest: Vec<u8>)
    ensures
        digest@ == sha256_digest(bytes@),
        digest@.len() == 32,
{
    <sha2::Sha256 as sha2::Digest>::digest(bytes).to_vec()
}

/// The lowercase hexadecimal SHA-256 digest of `bytes`: 64 characters.
pub fn sha256_hex(bytes: &[u8]) -> (s: String)
    ensures
        s@ == hex_lower(sha256_digest(bytes@)),
        s@.len() == 64,
{
    let digest = sha256_bytes(bytes);
    proof {
        lemma_hex_lower_len(digest@);
        assert(digest@.take(32) =~= digest@);
    }
    hex_prefix(digest.as_slice(), 32)
}

/// A SHA-256 computation over a message given in pieces: the `sha2`
/// crate's `Sha256` hasher, held privately.
#[verifier::external_body]
pub struct Sha256Stream {
    hasher: sha2::Sha256,
}

/// The bytes a stream has absorbed so far, in order.
pub uninterp spec fn sha256_absorbed(stream: Sha256Stream) -> Seq<u8>;

/// `Sha256::new` (`Digest::new`, which is `Default::default`) from `sha2`:
/// a hasher that has absorbed nothing.
#[verifier::external_body]
fn sha256_stream_start() -> (stream: Sha256Stream)
    ensures
        sha256_absorbed(stream) == Seq::<u8>::empty(),
{
    Sha256Stream { hasher: <sha2::Sha256 as sha2::Digest>::new() }
}

/// `Digest::update` from `sha2`: the chunk is appended to the message the
/// hasher absorbed. (`Digest::digest` is `default`, then one `update` with
/// the whole message, then `finalize`, in digest-0.10's source.)
#[verifier::external_body]
fn sha256_stream_absorb(stream: &mut Sha256Stream, chunk: &[u8])
    ensures
        sha256_absorbed(*final(stream)) == sha256_absorbed(*old(stream)) + chunk@,
{
    sha2::Digest::update(&mut stream.hasher, chunk);
}

/// `Digest::finalize` from `sha2`: the 32-byte SHA-256 digest of exactly
/// the message the hasher absorbed.
#[verifier::external_body]
fn sha256_stream_finish(stream: Sha256Stream) -> (digest: Vec<u8>)
    ensures
        digest@ == sha256_digest(sha256_absorbed(stream)),
        digest@.len() == 32,
{
    sha2::Digest::finalize(stream.hasher).to_vec()
}

impl Sha256Stream {
    /// The bytes absorbed so far.
    pub open spec fn absorbed(self) -> Seq<u8> {
        sha256_absorbed(self)
    }

    /// A stream that has absorbed nothing.
    pub fn start() -> (stream: Sha256Stream)
        ensures
            stream.absorbed() == Seq::<u8>::empty(),
    {
        sha256_stream_start()
    }

    /// Absorbs the next piece of the message.
    pub fn absorb(&mut self, chunk: &[u8])
        ensures
            final(self).absorbed() == old(self).absorbed() + chunk@,
    {
        sha256_stream_absorb(self, chunk);
    }

    /// The lowercase hexadecimal SHA-256 digest of everything absorbed: the
    /// same text `sha256_hex` gives for those bytes at once.
    pub fn finish_hex(self) -> (s: String)
        ensures
            s@ == hex_lower(sha256_digest(self.absorbed())),
            s@.len() == 64,
    {
        let digest = sha256_stream_finish(self);
        proof {
            lemma_hex_lower_len(digest@);
            assert(digest@.take(32) =~= digest@);
        }
        hex_prefix(digest.as_slice(), 32)
    }
}

/// Hashing a message in pieces gives the text hashing it at once gives: a
/// fresh stream that absorbed `first` and then `second` finishes to the
/// text `sha256_hex` gives for `whole`, their concatenation.
pub proof fn law_streamed_hash_is_the_hash(first: Seq<u8>, second: Seq<u8>, whole: Seq<u8>)
    requires
        whole == first + second,
    ensures
        hex_lower(sha256_digest(Seq::<u8>::empty() + first + second)) == hex_lower(sha256_digest(whole)),
{
    assert(Seq::<u8>::empty() + first + second =~= whole);
}

proof fn lemma_hex_lower_len(bytes: Seq<u8>)
    ensures
        hex_lower(bytes).len() == 2 * bytes.len(),
    decreases bytes.len(),
{
    if bytes.len() > 0 {
        lemma_hex_lower_len(bytes.drop_last());
    }
}

/// The bytes hashed to identify a device: install id, a zero byte, selector.
pub open spec fn device_selector_bytes(install_id: Seq<u8>, selector_id: Seq<u8>) -> Seq<u8> {
    install_id + seq![0u8] + selector_id
}

fn append_bytes(out: &mut Vec<u8>, bytes: &[u8])
    ensures
        final(out)@ == old(out)@ + bytes@,
{
    let mut i: usize = 0;
    let ghost start = out@;
    while i < bytes.len()
        invariant
            0 <= i <= bytes@.len(),
            out@ == start + bytes@.take(i as int),
        decreases bytes@.len() - i,
    {
        out.push(bytes[i]);
        assert(out@ =~= start + bytes@.take(i + 1));
        i = i + 1;
    }
    assert(bytes@.take(bytes@.len() as int) =~= bytes@);
}

/// The message hashed for a device is the install id's bytes, one zero
/// byte, then the selector id's bytes: nothing else, in that order.
pub proof fn law_device_message_is_install_zero_selector(install_id: Seq<u8>, selector_id: Seq<u8>)
    ensures
        device_selector_bytes(install_id, selector_id).len() == install_id.len() + 1 + selector_id.len(),
        device_selector_bytes(install_id, selector_id).subrange(0, install_id.len() as int) == install_id,
        device_selector_bytes(install_id, selector_id)[install_id.len() as int] == 0u8,
        device_selector_bytes(install_id, selector_id).subrange(
            install_id.len() + 1int,
            device_selector_bytes(install_id, selector_id).len() as int,
        ) == selector_id,
{
    let m = device_selector_bytes(install_id, selector_id);
    assert(m.subrange(0, install_id.len() as int) =~= install_id);
    assert(m.subrange(install_id.len() + 1int, m.len() as int) =~= selector_id);
}

/// Different devices are hashed from different messages: for install ids
/// without a zero byte, the message determines both the install id and the
/// selector id, so moving bytes between them changes what is hashed.
pub proof fn law_device_messages_are_distinct(i1: Seq<u8>, s1: Seq<u8>, i2: Seq<u8>, s2: Seq<u8>)
    requires
        forall|k: int| 0 <= k < i1.len() ==> #[trigger] i1[k] != 0u8,
        forall|k: int| 0 <= k < i2.len() ==> #[trigger] i2[k] != 0u8,
        device_selector_bytes(i1, s1) == device_selector_bytes(i2, s2),
    ensures
        i1 == i2,
        s1 == s2,
{
    let m = device_selector_bytes(i1, s1);
    assert(m == device_selector_bytes(i2, s2));
    law_device_message_is_install_zero_selector(i1, s1);
    law_device_message_is_install_zero_selector(i2, s2);
    if i1.len() < i2.len() {
        assert(m[i1.len() as int] == 0u8);
        assert(m.subrange(0, i2.len() as int)[i1.len() as int] == i2[i1.len() as int]);
        assert(false);
    } else if i2.len() < i1.len() {
        assert(m[i2.len() as int] == 0u8);
        assert(m.subrange(0, i1.len() as int)[i2.len() as int] == i1[i2.len() as int]);
        assert(false);
    }
    assert(i1 =~= i2);
    assert(s1 =~= s2);
}

impl CaptureTrackDescriptor {
    /// The device identifier is `dev-` followed by the lowercase hex of the
    /// first 16 bytes of SHA-256(install id, 0, selector id).
    pub fn from_selector(track_id: TrackId, source: TrackSource, install_id: &str, selector_id: &str) -> (d: CaptureTrackDescriptor)
        ensures
            d.track_id@ == track_id@,
            d.source == source,
            d.device_id@ == "dev-"@ + hex_lower(
                sha256_digest(device_selector_bytes(install_id.spec_bytes(), selector_id.spec_bytes())).take(16),
            ),
            exists|message: Seq<u8>| {
                &&& message.len() == install_id.spec_bytes().len() + 1 + selector_id.spec_bytes().len()
                &&& message.subrange(0, install_id.spec_bytes().len() as int) == install_id.spec_bytes()
                &&& message[install_id.spec_bytes().len() as int] == 0u8
                &&& message.subrange(install_id.spec_bytes().len() + 1int, message.len() as int)
                    == selector_id.spec_bytes()
                &&& #[trigger] sha256_digest(message) == sha256_digest(
                    device_selector_bytes(install_id.spec_bytes(), selector_id.spec_bytes()),
                )
                &&& d.device_id@ == "dev-"@ + hex_lower(sha256_digest(message).take(16))
            },
    {
        let mut data: Vec<u8> = Vec::new();
        append_bytes(&mut data, install_id.as_bytes());
        data.push(0u8);
        append_bytes(&mut data, selector_id.as_bytes());
        assert(data@ =~= device_selector_bytes(install_id.spec_bytes(), selector_id.spec_bytes()));
        proof {
            let i = install_id.spec_bytes();
            let sel = selector_id.spec_bytes();
            assert(data@.len() == i.len() + 1 + sel.len());
            assert(data@.subrange(0, i.len() as int) =~= i);
            assert(data@[i.len() as int] == 0u8);
            assert(data@.subrange(i.len() + 1int, data@.len() as int) =~= sel);
        }
        let digest = sha256_bytes(data.as_slice());
        let hex = hex_prefix(digest.as_slice(), 16);
        let mut device_id = String::from_str("dev-");
        device_id.append(hex.as_str());
        CaptureTrackDescriptor { track_id, source, device_id }
    }
}

/// A wall-clock instant in nanoseconds relative to the Unix epoch
/// (negative before it).
#[derive(Debug, Clone, Copy, PartialEq, Eq, PartialOrd, Ord, Hash)]
pub struct UnixInstant {
    pub nanos_since_epoch: i128,
}

/// Nanoseconds in one second.
pub const NANOS_PER_SECOND: i128 = 1_000_000_000;

impl UnixInstant {
    /// The instant `secs` whole seconds after the epoch.
    pub fn from_unix_secs(secs: u64) -> (t: UnixInstant)
        ensures
            t.nanos_since_epoch == secs * NANOS_PER_SECOND,
    {
        UnixInstant { nanos_since_epoch: (secs as i128) * NANOS_PER_SECOND }
    }

    /// The instant `secs` seconds later, or `None` when it is not representable.
    pub fn checked_add_secs(self, secs: u64) -> (t: Option<UnixInstant>)
        ensures
            t matches Some(t) ==> t.nanos_since_epoch == self.nanos_since_epoch + secs * NANOS_PER_SECOND,
            t is None <==> self.nanos_since_epoch + secs * NANOS_PER_SECOND > i128::MAX,
    {
        let delta: i128 = (secs as i128) * NANOS_PER_SECOND;
        if self.nanos_since_epoch > i128::MAX - delta {
            None
        } else {
            Some(UnixInstant { nanos_since_epoch: self.nanos_since_epoch + delta })
        }
    }
}

/// RFC 3339 UTC text of the instant `unix_nanos` nanoseconds after the epoch,
/// when the `time` crate can represent and format it.
pub uninterp spec fn rfc3339_utc_text(unix_nanos: int) -> Option<Seq<char>>;

pub open spec fn string_option_view(o: Option<String>) -> Option<Seq<char>> {
    match o {
        Some(s) => Some(s@),
        None => None,
    }
}

/// Formats with `time::OffsetDateTime::from_unix_timestamp_nanos` followed by
/// `format(&Rfc3339)`; `None` when either step fails. The text itself is
/// named, not stated.
#[verifier::external_body]
fn format_rfc3339_utc(unix_nanos: i128) -> (r: Option<String>)
    ensures
        string_option_view(r) == rfc3339_utc_text(unix_nanos as int),
{
    match time::OffsetDateTime::from_unix_timestamp_nanos(unix_nanos) {
        Ok(at) => at.format(&time::format_description::well_known::Rfc3339).ok(),
        Err(_) => None,
    }
}

/// The UTC text of an instant: defined only at or after the epoch.
pub open spec fn utc_text(at: UnixInstant) -> Option<Seq<char>> {
    if at.nanos_since_epoch < 0 {
        None
    } else {
        rfc3339_utc_text(at.nanos_since_epoch as int)
    }
}

/// Formats an instant as RFC 3339 UTC text.
pub fn format_utc(at: UnixInstant) -> (r: Result<String, String>)
    ensures
        r is Ok <==> utc_text(at) is Some,
        r matches Ok(s) ==> Some(s@) == utc_text(at),
        r matches Err(e) ==> e@ == utc_refusal(at),
{
    if at.nanos_since_epoch < 0 {
        return Err(String::from_str("timestamp is before the Unix epoch"));
    }
    match format_rfc3339_utc(at.nanos_since_epoch) {
        Some(text) => Ok(text),
        None => Err(String::from_str("timestamp is out of range")),
    }
}

/// A BCP 47-like hint: 1 to 35 characters of ASCII alphanumeric subtags
/// separated by single `-`.
pub open spec fn valid_bcp47_hint(value: Seq<char>) -> bool {
    let parts = split_on(value, '-');
    &&& 0 < value.len() <= 35
    &&& value[0] != '-'
    &&& value.last() != '-'
    &&& forall|i: int| 0 <= i < parts.len() ==> {
        &&& #[trigger] parts[i].len() > 0
        &&& forall|j: int| 0 <= j < parts[i].len() ==> is_ascii_alnum_char(parts[i][j])
    }
}

fn all_alnum(v: &Vec<char>) -> (b: bool)
    ensures
        b == forall|j: int| 0 <= j < v@.len() ==> is_ascii_alnum_char(v@[j]),
{
    let mut i: usize = 0;
    while i < v.len()
        invariant
            0 <= i <= v@.len(),
            forall|j: int| 0 <= j < i ==> is_ascii_alnum_char(v@[j]),
        decreases v@.len() - i,
    {
        if !ascii_alnum(v[i]) {
            return false;
        }
        i = i + 1;
    }
    true
}

/// Accepts exactly the BCP 47-like hints.
pub fn validate_bcp47_hint(value: &str) -> (r: Result<(), String>)
    ensures
        r is Ok <==> valid_bcp47_hint(value@),
        r matches Err(e) ==> e@ == "language hints must be BCP 47-like ASCII subtags up to 35 characters"@,
{
    let chars = chars_of(value);
    let err = String::from_str("language hints must be BCP 47-like ASCII subtags up to 35 characters");
    if chars.len() == 0 || chars.len() > 35 || chars[0] == '-' || chars[chars.len() - 1] == '-' {
        return Err(err);
    }
    let parts = split_chars(&chars, '-');
    let ghost spec_parts = split_on(value@, '-');
    let mut i: usize = 0;
    while i < parts.len()
        invariant
            0 <= i <= parts@.len(),
            char_vecs_match(parts@, spec_parts),
            spec_parts == split_on(value@, '-'),
            err@ == "language hints must be BCP 47-like ASCII subtags up to 35 characters"@,
            forall|k: int| 0 <= k < i ==> {
                &&& #[trigger] spec_parts[k].len() > 0
                &&& forall|j: int| 0 <= j < spec_parts[k].len() ==> is_ascii_alnum_char(spec_parts[k][j])
            },
        decreases parts@.len() - i,
    {
        if parts[i].len() == 0 || !all_alnum(&parts[i]) {
            assert(parts@[i as int]@ == spec_parts[i as int]);
            return Err(err);
        }
        i = i + 1;
    }
    Ok(())
}

/// Uppercase of an ASCII letter; other characters unchanged.
pub open spec fn ascii_upper(c: char) -> char {
    if 'a' <= c && c <= 'z' {
        ((c as u32) - 32) as char
    } else {
        c
    }
}

/// A country hint is exactly two ASCII letters.
pub open spec fn valid_country_hint(value: Seq<char>) -> bool {
    value.len() == 2 && is_ascii_alpha_char(value[0]) && is_ascii_alpha_char(value[1])
}

fn upper_char(c: char) -> (u: char)
    ensures
        u == ascii_upper(c),
{
    if 'a' <= c && c <= 'z' {
        let code = (c as u8) - 32;
        code as char
    } else {
        c
    }
}

/// Two ASCII letters, returned uppercase.
pub fn normalize_country_code(value: &str) -> (r: Result<String, String>)
    ensures
        r is Ok <==> valid_country_hint(value@),
        r matches Ok(s) ==> s@ == seq![ascii_upper(value@[0]), ascii_upper(value@[1])],
        r matches Err(e) ==> e@ == "country hint must be exactly two ASCII letters"@,
{
    let chars = chars_of(value);
    if chars.len() != 2 || !ascii_alpha(chars[0]) || !ascii_alpha(chars[1]) {
        return Err(String::from_str("country hint must be exactly two ASCII letters"));
    }
    let upper = [upper_char(chars[0]), upper_char(chars[1])];
    assert(upper@ =~= seq![ascii_upper(value@[0]), ascii_upper(value@[1])]);
    Ok(string_from_chars(&upper))
}


/// Version recorded in session metadata (the package version).
pub const APP_VERSION: &'static str = "0.1.0";

/// Privacy policy version recorded until one is configured.
pub const UNCONFIGURED_PRIVACY_POLICY: &'static str = "unconfigured";

/// Default retention of meeting recordings: thirty days, in seconds.
pub const DEFAULT_MEETING_RETENTION_SECS: u64 = 2_592_000;

/// Most language hints accepted on one session.
pub const MAX_LANGUAGE_HINTS: usize = 8;

/// Descriptive metadata written alongside a recording.
#[derive(Debug, Clone, PartialEq, Eq)]
pub struct SessionMetadata {
    pub session_id: SessionId,
    pub mode: SessionMode,
    pub origin: SessionOrigin,
    pub trigger_mode: TriggerMode,
    pub started_at_utc: String,
    pub utc_offset_minutes_at_start: Option<i16>,
    pub locale_hint_bcp47: Option<String>,
    pub country_code_hint: Option<String>,
    pub preferred_languages_bcp47: Vec<String>,
    pub app_version: String,
    pub platform: String,
    pub privacy_policy_version: String,
    pub retention_expires_at_utc: Option<String>,
}

pub open spec fn all_bcp47_hints(values: Seq<String>) -> bool {
    forall|i: int| 0 <= i < values.len() ==> valid_bcp47_hint(#[trigger] values[i]@)
}

/// Which inputs `SessionMetadata::new` accepts.
pub open spec fn metadata_accepts(
    mode: SessionMode,
    started_at: UnixInstant,
    locale: Option<Seq<char>>,
    country: Option<Seq<char>>,
    languages: Seq<String>,
    retention: Option<UnixInstant>,
) -> bool {
    &&& languages.len() <= MAX_LANGUAGE_HINTS
    &&& (locale matches Some(l) ==> valid_bcp47_hint(l))
    &&& all_bcp47_hints(languages)
    &&& (country matches Some(c) ==> valid_country_hint(c))
    &&& !(mode == SessionMode::Meeting && retention is None)
    &&& (retention matches Some(t) ==> t.nanos_since_epoch > started_at.nanos_since_epoch)
    &&& utc_text(started_at) is Some
    &&& (retention matches Some(t) ==> utc_text(t) is Some)
}

/// Why an instant cannot be written as RFC 3339 UTC text.
pub open spec fn utc_refusal(at: UnixInstant) -> Seq<char> {
    if at.nanos_since_epoch < 0 {
        "timestamp is before the Unix epoch"@
    } else {
        "timestamp is out of range"@
    }
}

/// Why metadata is refused, checked in the order `metadata_accepts` lists
/// its conditions; `None` when it is accepted.
pub open spec fn metadata_refusal(
    mode: SessionMode,
    started_at: UnixInstant,
    locale: Option<Seq<char>>,
    country: Option<Seq<char>>,
    languages: Seq<String>,
    retention: Option<UnixInstant>,
) -> Option<Seq<char>> {
    if languages.len() > MAX_LANGUAGE_HINTS {
        Some("at most eight preferred language hints are allowed"@)
    } else if (locale matches Some(l) && !valid_bcp47_hint(l)) || !all_bcp47_hints(languages) {
        Some("language hints must be BCP 47-like ASCII subtags up to 35 characters"@)
    } else if country matches Some(c) && !valid_country_hint(c) {
        Some("country hint must be exactly two ASCII letters"@)
    } else if mode == SessionMode::Meeting && retention is None {
        Some("meeting metadata requires a retention expiry"@)
    } else if retention matches Some(t) && t.nanos_since_epoch <= started_at.nanos_since_epoch {
        Some("retention expiry must be after session start"@)
    } else if utc_text(started_at) is None {
        Some(utc_refusal(started_at))
    } else if retention matches Some(t) && utc_text(t) is None {
        Some(utc_refusal(retention->0))
    } else {
        None
    }
}

pub open spec fn normalized_country(c: Seq<char>) -> Seq<char> {
    seq![ascii_upper(c[0]), ascii_upper(c[1])]
}

/// The metadata `SessionMetadata::new` builds from accepted inputs.
pub open spec fn metadata_matches(
    m: SessionMetadata,
    session_id: Seq<char>,
    mode: SessionMode,
    origin: SessionOrigin,
    trigger_mode: TriggerMode,
    started_at: UnixInstant,
    utc_offset: Option<i16>,
    locale: Option<Seq<char>>,
    country: Option<Seq<char>>,
    languages: Seq<String>,
    retention: Option<UnixInstant>,
    platform: Seq<char>,
) -> bool {
    &&& m.session_id@ == session_id
    &&& m.mode == mode
    &&& m.origin == origin
    &&& m.trigger_mode == trigger_mode
    &&& Some(m.started_at_utc@) == utc_text(started_at)
    &&& m.utc_offset_minutes_at_start == utc_offset
    &&& string_option_view(m.locale_hint_bcp47) == locale
    &&& string_option_view(m.country_code_hint) == (match country {
        Some(c) => Some(normalized_country(c)),
        None => None,
    })
    &&& m.preferred_languages_bcp47@ == languages
    &&& m.app_version@ == APP_VERSION@
    &&& m.platform@ == platform
    &&& m.privacy_policy_version@ == UNCONFIGURED_PRIVACY_POLICY@
    &&& string_option_view(m.retention_expires_at_utc) == (match retention {
        Some(t) => utc_text(t),
        None => None,
    })
}

fn validate_all_hints(values: &Vec<String>) -> (r: Result<(), String>)
    ensures
        r is Ok <==> all_bcp47_hints(values@),
        r matches Err(e) ==> e@ == "language hints must be BCP 47-like ASCII subtags up to 35 characters"@,
{
    let mut i: usize = 0;
    while i < values.len()
        invariant
            0 <= i <= values@.len(),
            forall|k: int| 0 <= k < i ==> valid_bcp47_hint(#[trigger] values@[k]@),
        decreases values@.len() - i,
    {
        validate_bcp47_hint(values[i].as_str())?;
        i = i + 1;
    }
    Ok(())
}

impl SessionMetadata {
    /// Builds metadata, rejecting more than eight language hints, malformed
    /// locale or language hints, a country hint that is not two ASCII
    /// letters, a meeting without retention expiry, an expiry not after the
    /// start, and instants that cannot be written as RFC 3339 UTC text.
    /// `platform` names the operating system the recorder runs on.
    pub fn new(
        session_id: SessionId,
        mode: SessionMode,
        origin: SessionOrigin,
        trigger_mode: TriggerMode,
        started_at: UnixInstant,
        utc_offset_minutes_at_start: Option<i16>,
        locale_hint_bcp47: Option<String>,
        country_code_hint: Option<String>,
        preferred_languages_bcp47: Vec<String>,
        retention_expires_at: Option<UnixInstant>,
        platform: &str,
    ) -> (r: Result<SessionMetadata, String>)
        ensures
            r is Ok <==> metadata_accepts(
                mode,
                started_at,
                string_option_view(locale_hint_bcp47),
                string_option_view(country_code_hint),
                preferred_languages_bcp47@,
                retention_expires_at,
            ),
            r matches Ok(m) ==> metadata_matches(
                m,
                session_id@,
                mode,
                origin,
                trigger_mode,
                started_at,
                utc_offset_minutes_at_start,
                string_option_view(locale_hint_bcp47),
                string_option_view(country_code_hint),
                preferred_languages_bcp47@,
                retention_expires_at,
                platform@,
            ),
            r matches Err(e) ==> metadata_refusal(
                mode,
                started_at,
                string_option_view(locale_hint_bcp47),
                string_option_view(country_code_hint),
                preferred_languages_bcp47@,
                retention_expires_at,
            ) == Some(e@),
    {
        if preferred_languages_bcp47.len() > MAX_LANGUAGE_HINTS {
            return Err(String::from_str("at most eight preferred language hints are allowed"));
        }
        match &locale_hint_bcp47 {
            Some(locale) => {
                validate_bcp47_hint(locale.as_str())?;
            },
            None => {},
        }
        validate_all_hints(&preferred_languages_bcp47)?;
        let country = match &country_code_hint {
            Some(country) => Some(normalize_country_code(country.as_str())?),
            None => None,
        };
        if mode == SessionMode::Meeting && retention_expires_at.is_none() {
            return Err(String::from_str("meeting metadata requires a retention expiry"));
        }
        match retention_expires_at {
            Some(expiry) => {
                if expiry.nanos_since_epoch <= started_at.nanos_since_epoch {
                    return Err(String::from_str("retention expiry must be after session start"));
                }
            },
            None => {},
        }
        let started_at_utc = format_utc(started_at)?;
        let retention_expires_at_utc = match retention_expires_at {
            Some(expiry) => Some(format_utc(expiry)?),
            None => None,
        };
        Ok(SessionMetadata {
            session_id,
            mode,
            origin,
            trigger_mode,
            started_at_utc,
            utc_offset_minutes_at_start,
            locale_hint_bcp47,
            country_code_hint: country,
            preferred_languages_bcp47,
            app_version: String::from_str(APP_VERSION),
            platform: String::from_str(platform),
            privacy_policy_version: String::from_str(UNCONFIGURED_PRIVACY_POLICY),
            retention_expires_at_utc,
        })
    }

    /// Dictation metadata for a live capture, without hints.
    pub fn dictation(session_id: SessionId, started_at: UnixInstant, trigger_mode: TriggerMode, platform: &str) -> (r: Result<SessionMetadata, String>)
        ensures
            r is Ok <==> utc_text(started_at) is Some,
            r matches Ok(m) ==> metadata_matches(
                m,
                session_id@,
                SessionMode::Dictation,
                SessionOrigin::LiveCapture,
                trigger_mode,
                started_at,
                None,
                None,
                None,
                Seq::empty(),
                None,
                platform@,
            ),
            r matches Err(e) ==> e@ == utc_refusal(started_at),
    {
        let r = Self::dictation_with_hints(session_id, started_at, trigger_mode, None, Vec::new(), platform);
        proof {
            assert(all_bcp47_hints(Seq::<String>::empty()));
        }
        r
    }

    /// Dictation metadata for a live capture with a country hint and
    /// preferred languages.
    pub fn dictation_with_hints(
        session_id: SessionId,
        started_at: UnixInstant,
        trigger_mode: TriggerMode,
        country_code_hint: Option<String>,
        preferred_languages_bcp47: Vec<String>,
        platform: &str,
    ) -> (r: Result<SessionMetadata, String>)
        ensures
            r is Ok <==> metadata_accepts(
                SessionMode::Dictation,
                started_at,
                None,
                string_option_view(country_code_hint),
                preferred_languages_bcp47@,
                None,
            ),
            r matches Ok(m) ==> metadata_matches(
                m,
                session_id@,
                SessionMode::Dictation,
                SessionOrigin::LiveCapture,
                trigger_mode,
                started_at,
                None,
                None,
                string_option_view(country_code_hint),
                preferred_languages_bcp47@,
                None,
                platform@,
            ),
            r matches Err(e) ==> metadata_refusal(
                SessionMode::Dictation,
                started_at,
                None,
                string_option_view(country_code_hint),
                preferred_languages_bcp47@,
                None,
            ) == Some(e@),
    {
        Self::new(
            session_id,
            SessionMode::Dictation,
            SessionOrigin::LiveCapture,
            trigger_mode,
            started_at,
            None,
            None,
            country_code_hint,
            preferred_languages_bcp47,
            None,
            platform,
        )
    }

    /// Meeting metadata; without an explicit expiry, recordings are retained
    /// for thirty days after the start.
    pub fn meeting(
        session_id: SessionId,
        started_at: UnixInstant,
        trigger_mode: TriggerMode,
        retention_expires_at: Option<UnixInstant>,
        platform: &str,
    ) -> (r: Result<SessionMetadata, String>)
        requires
            retention_expires_at is None ==> started_at.nanos_since_epoch + DEFAULT_MEETING_RETENTION_SECS
                * NANOS_PER_SECOND <= i128::MAX,
        ensures
            ({
                let expiry = match retention_expires_at {
                    Some(t) => t,
                    None => UnixInstant {
                        nanos_since_epoch: (started_at.nanos_since_epoch
                            + DEFAULT_MEETING_RETENTION_SECS * NANOS_PER_SECOND) as i128,
                    },
                };
                &&& r is Ok <==> metadata_accepts(
                    SessionMode::Meeting,
                    started_at,
                    None,
                    None,
                    Seq::empty(),
                    Some(expiry),
                )
                &&& r matches Ok(m) ==> metadata_matches(
                    m,
                    session_id@,
                    SessionMode::Meeting,
                    SessionOrigin::LiveCapture,
                    trigger_mode,
                    started_at,
                    None,
                    None,
                    None,
                    Seq::empty(),
                    Some(expiry),
                    platform@,
                )
                &&& r matches Err(e) ==> metadata_refusal(
                    SessionMode::Meeting,
                    started_at,
                    None,
                    None,
                    Seq::empty(),
                    Some(expiry),
                ) == Some(e@)
            }),
    {
        let expiry = match retention_expires_at {
            Some(t) => t,
            None => started_at.checked_add_secs(DEFAULT_MEETING_RETENTION_SECS).unwrap(),
        };
        let r = Self::new(
            session_id,
            SessionMode::Meeting,
            SessionOrigin::LiveCapture,
            trigger_mode,
            started_at,
            None,
            None,
            None,
            Vec::new(),
            Some(expiry),
            platform,
        );
        proof {
            assert(all_bcp47_hints(Seq::<String>::empty()));
        }
        r
    }
}


/// The text of a generated identifier: `s-<hex nanos>-<hex pid>-<hex counter>`.
pub open spec fn generated_id_text(nanos: nat, process_id: nat, counter: nat) -> Seq<char> {
    seq!['s', '-'] + radix_text(nanos, 16) + seq!['-'] + radix_text(process_id, 16) + seq!['-']
        + radix_text(counter, 16)
}

proof fn lemma_generated_id_valid(nanos: u128, process_id: u32, counter: u64)
    ensures
        valid_opaque_id(
            generated_id_text(nanos as nat, process_id as nat, counter as nat),
            MAX_SESSION_ID_CHARS as nat,
        ),
{
    let a = radix_text(nanos as nat, 16);
    let b = radix_text(process_id as nat, 16);
    let c = radix_text(counter as nat, 16);
    lemma_radix_text_hex(nanos as nat, 16);
    lemma_radix_text_hex(process_id as nat, 16);
    lemma_radix_text_hex(counter as nat, 16);
    lemma_u128_below_pow16_32(nanos);
    lemma_u128_below_pow16_32(process_id as u128);
    lemma_u128_below_pow16_32(counter as u128);
    lemma_radix16_len(nanos as nat, 32);
    lemma_radix16_len(process_id as nat, 32);
    lemma_radix16_len(counter as nat, 32);
    let t = generated_id_text(nanos as nat, process_id as nat, counter as nat);
    assert forall|i: int| 0 <= i < t.len() implies is_id_char(#[trigger] t[i]) by {
        if i < 2 {
        } else if i < 2 + a.len() {
            assert(t[i] == a[i - 2]);
        } else if i == 2 + a.len() {
        } else if i < 3 + a.len() + b.len() {
            assert(t[i] == b[i - 3 - a.len()]);
        } else if i == 3 + a.len() + b.len() {
        } else {
            assert(t[i] == c[i - 4 - a.len() - b.len()]);
        }
    }
}

proof fn lemma_hex_digit_injective(a: nat, b: nat)
    requires
        a < 16,
        b < 16,
        digit_char(a) == digit_char(b),
    ensures
        a == b,
{
}

proof fn lemma_hex_text_injective(a: nat, b: nat)
    requires
        radix_text(a, 16) == radix_text(b, 16),
    ensures
        a == b,
    decreases a + b,
{
    lemma_radix_text_hex(a, 16);
    lemma_radix_text_hex(b, 16);
    if a < 16 && b < 16 {
        assert(radix_text(a, 16)[0] == digit_char(a));
        assert(radix_text(b, 16)[0] == digit_char(b));
        lemma_hex_digit_injective(a, b);
    } else if a < 16 {
        lemma_radix_text_hex(b / 16, 16);
        assert(radix_text(b, 16).len() >= 2);
    } else if b < 16 {
        lemma_radix_text_hex(a / 16, 16);
        assert(radix_text(a, 16).len() >= 2);
    } else {
        let ta = radix_text(a, 16);
        let tb = radix_text(b, 16);
        assert(ta.last() == digit_char(a % 16));
        assert(tb.last() == digit_char(b % 16));
        lemma_hex_digit_injective(a % 16, b % 16);
        assert(ta.drop_last() == radix_text(a / 16, 16));
        assert(tb.drop_last() == radix_text(b / 16, 16));
        lemma_hex_text_injective(a / 16, b / 16);
        assert(a == (a / 16) * 16 + a % 16) by (nonlinear_arith);
        assert(b == (b / 16) * 16 + b % 16) by (nonlinear_arith);
    }
}

/// Splits `x + ['-'] + rest` where `x` holds no `-`.
proof fn lemma_dash_split(x1: Seq<char>, r1: Seq<char>, x2: Seq<char>, r2: Seq<char>)
    requires
        forall|i: int| 0 <= i < x1.len() ==> x1[i] != '-',
        forall|i: int| 0 <= i < x2.len() ==> x2[i] != '-',
        x1 + seq!['-'] + r1 == x2 + seq!['-'] + r2,
    ensures
        x1 == x2,
        r1 == r2,
{
    let s1 = x1 + seq!['-'] + r1;
    let s2 = x2 + seq!['-'] + r2;
    if x1.len() < x2.len() {
        assert(s1[x1.len() as int] == '-');
        assert(s2[x1.len() as int] == x2[x1.len() as int]);
    } else if x2.len() < x1.len() {
        assert(s2[x2.len() as int] == '-');
        assert(s1[x2.len() as int] == x1[x2.len() as int]);
    }
    assert(x1 =~= s1.take(x1.len() as int));
    assert(x2 =~= s2.take(x2.len() as int));
    assert(r1 =~= s1.skip(x1.len() as int + 1));
    assert(r2 =~= s2.skip(x2.len() as int + 1));
}

/// Generated identifiers are distinct: two generations give the same text
/// only at the same instant, in the same process, with the same counter.
pub proof fn law_generated_ids_are_distinct(n1: nat, p1: nat, c1: nat, n2: nat, p2: nat, c2: nat)
    ensures
        generated_id_text(n1, p1, c1) == generated_id_text(n2, p2, c2) <==> (n1 == n2 && p1 == p2 && c1 == c2),
{
    if generated_id_text(n1, p1, c1) == generated_id_text(n2, p2, c2) {
        lemma_radix_text_hex(n1, 16);
        lemma_radix_text_hex(n2, 16);
        lemma_radix_text_hex(p1, 16);
        lemma_radix_text_hex(p2, 16);
        let a1 = radix_text(n1, 16);
        let a2 = radix_text(n2, 16);
        let b1 = radix_text(p1, 16);
        let b2 = radix_text(p2, 16);
        let t1 = radix_text(c1, 16);
        let t2 = radix_text(c2, 16);
        let r1 = b1 + seq!['-'] + t1;
        let r2 = b2 + seq!['-'] + t2;
        assert(generated_id_text(n1, p1, c1) =~= seq!['s', '-'] + (a1 + seq!['-'] + r1));
        assert(generated_id_text(n2, p2, c2) =~= seq!['s', '-'] + (a2 + seq!['-'] + r2));
        assert(a1 + seq!['-'] + r1 =~= generated_id_text(n1, p1, c1).skip(2));
        assert(a2 + seq!['-'] + r2 =~= generated_id_text(n2, p2, c2).skip(2));
        lemma_dash_split(a1, r1, a2, r2);
        lemma_dash_split(b1, t1, b2, t2);
        lemma_hex_text_injective(n1, n2);
        lemma_hex_text_injective(p1, p2);
        lemma_hex_text_injective(c1, c2);
    }
}

fn push_all(out: &mut Vec<char>, chars: &Vec<char>)
    ensures
        final(out)@ == old(out)@ + chars@,
{
    let ghost start = out@;
    let mut i: usize = 0;
    while i < chars.len()
        invariant
            0 <= i <= chars@.len(),
            out@ == start + chars@.take(i as int),
        decreases chars@.len() - i,
    {
        out.push(chars[i]);
        assert(out@ =~= start + chars@.take(i + 1));
        i = i + 1;
    }
    assert(chars@.take(chars@.len() as int) =~= chars@);
}

impl SessionId {
    /// The identifier generated at `at` by process `process_id` with the
    /// per-process counter value `counter`; instants before the epoch are
    /// rejected.
    pub fn generate_at(at: UnixInstant, process_id: u32, counter: u64) -> (r: Result<SessionId, String>)
        ensures
            r is Ok <==> at.nanos_since_epoch >= 0,
            r matches Ok(id) ==> id@ == generated_id_text(
                at.nanos_since_epoch as nat,
                process_id as nat,
                counter as nat,
            ) && id.wf(),
            r matches Err(e) ==> e@ == "system clock is before the Unix epoch"@,
    {
        if at.nanos_since_epoch < 0 {
            return Err(String::from_str("system clock is before the Unix epoch"));
        }
        let nanos = at.nanos_since_epoch as u128;
        let mut out: Vec<char> = Vec::new();
        out.push('s');
        out.push('-');
        push_all(&mut out, &radix_chars(nanos, 16));
        out.push('-');
        push_all(&mut out, &radix_chars(process_id as u128, 16));
        out.push('-');
        push_all(&mut out, &radix_chars(counter as u128, 16));
        proof {
            assert(out@ =~= generated_id_text(nanos as nat, process_id as nat, counter as nat));
            lemma_generated_id_valid(nanos, process_id, counter);
        }
        Ok(SessionId(string_from_chars(out.as_slice())))
    }
}

/// Outcome of trying to reserve a recording's first artifact.
#[derive(Debug, Clone, PartialEq, Eq)]
pub enum ReservationOutcome {
    Reserved,
    AlreadyExists,
    Failed(String),
}

/// Attempts made before allocation gives up on collisions.
pub const MAX_ALLOCATION_ATTEMPTS: u32 = 1024;

/// The refusal once every attempt collided.
pub open spec fn collision_text() -> Seq<char> {
    "failed to allocate a collision-free recording session ID"@
}

/// The refusal of a failed reservation, after its own message.
pub open spec fn reservation_failure_text(message: Seq<char>) -> Seq<char> {
    "failed to reserve recording artifact: "@ + message
}

/// What one allocation attempt comes to, as attempt `attempt` (counted from
/// zero): a generation error is returned as it came; a reservation answered
/// `Reserved` allocates the identifier; `AlreadyExists` retries (`None`)
/// while fewer than `MAX_ALLOCATION_ATTEMPTS` attempts were made, and gives
/// the collision refusal after the last one; `Failed(m)` gives the
/// reservation refusal with `m`. `outcome` is the reservation's answer, and
/// is absent only when generation failed and nothing was reserved.
pub fn allocation_step(
    attempt: u32,
    generated: Result<SessionId, String>,
    outcome: Option<ReservationOutcome>,
) -> (r: Option<Result<SessionId, String>>)
    requires
        attempt < MAX_ALLOCATION_ATTEMPTS,
        generated is Ok ==> outcome is Some,
    ensures
        match generated {
            Err(e) => r == Some(Err::<SessionId, String>(e)),
            Ok(id) => match outcome->0 {
                ReservationOutcome::Reserved => r == Some(Ok::<SessionId, String>(id)),
                ReservationOutcome::AlreadyExists => if attempt + 1 < MAX_ALLOCATION_ATTEMPTS {
                    r is None
                } else {
                    r matches Some(Err(e)) && e@ == collision_text()
                },
                ReservationOutcome::Failed(m) => r matches Some(Err(e)) && e@ == reservation_failure_text(m@),
            },
        },
{
    let session_id = match generated {
        Ok(session_id) => session_id,
        Err(error) => return Some(Err(error)),
    };
    match outcome {
        Some(ReservationOutcome::Reserved) => Some(Ok(session_id)),
        Some(ReservationOutcome::AlreadyExists) => {
            if attempt + 1 < MAX_ALLOCATION_ATTEMPTS {
                None
            } else {
                Some(Err(String::from_str("failed to allocate a collision-free recording session ID")))
            }
        },
        Some(ReservationOutcome::Failed(error)) => {
            let mut message = String::from_str("failed to reserve recording artifact: ");
            message.append(error.as_str());
            Some(Err(message))
        },
        None => Some(Err(String::from_str("failed to allocate a collision-free recording session ID"))),
    }
}

/// Attempts `0 .. ids.len()`, each answered `AlreadyExists`: attempt `i`
/// called the generator, in state `gs[i]`, with `i` and got `ids[i]`, and
/// offered `ids[i]` to the reservation, in state `fs[i]`, with `i`.
pub open spec fn collided<G, F>(gs: Seq<G>, fs: Seq<F>, ids: Seq<SessionId>) -> bool
    where
        G: FnMut(u32) -> Result<SessionId, String>,
        F: FnMut(u32, &SessionId) -> ReservationOutcome,
{
    &&& gs.len() == ids.len()
    &&& fs.len() == ids.len()
    &&& forall|i: int| #![trigger ids[i]] 0 <= i < ids.len() ==> call_ensures(
        gs[i],
        (i as u32,),
        Ok::<SessionId, String>(ids[i]),
    )
    &&& forall|i: int| #![trigger ids[i]] 0 <= i < ids.len() ==> call_ensures(
        fs[i],
        (i as u32, &ids[i]),
        ReservationOutcome::AlreadyExists,
    )
}

/// The number of the attempt after those that gave `ids`.
pub open spec fn attempt_number(ids: Seq<SessionId>) -> u32 {
    ids.len() as u32
}

/// Attempt `n`: the generator, in state `g`, gave `id`, and the
/// reservation, in state `f`, answered `Reserved` for it.
pub open spec fn reserved_at<G, F>(g: G, f: F, n: u32, id: SessionId) -> bool
    where
        G: FnMut(u32) -> Result<SessionId, String>,
        F: FnMut(u32, &SessionId) -> ReservationOutcome,
{
    &&& call_ensures(g, (n,), Ok::<SessionId, String>(id))
    &&& call_ensures(f, (n, &id), ReservationOutcome::Reserved)
}

/// Attempt `n`: the generator, in state `g`, failed with `e`.
pub open spec fn generation_failed_at<G>(g: G, n: u32, e: String) -> bool
    where
        G: FnMut(u32) -> Result<SessionId, String>,
{
    call_ensures(g, (n,), Err::<SessionId, String>(e))
}

/// Attempt `n`: the generator, in state `g`, gave `id`, and the
/// reservation, in state `f`, failed with `m`.
pub open spec fn reservation_failed_at<G, F>(g: G, f: F, n: u32, id: SessionId, m: String) -> bool
    where
        G: FnMut(u32) -> Result<SessionId, String>,
        F: FnMut(u32, &SessionId) -> ReservationOutcome,
{
    &&& call_ensures(g, (n,), Ok::<SessionId, String>(id))
    &&& call_ensures(f, (n, &id), ReservationOutcome::Failed(m))
}

/// Allocates a durable recording identity: attempt `n` (from 0) asks
/// `generate` for an identifier and offers it to `reserve_artifact`, both
/// told the attempt number; a collision (`AlreadyExists`) makes the next
/// attempt, at most 1024 in all, and any other failure, of generation or
/// reservation, ends the allocation. Each attempt is decided by
/// `allocation_step`.
pub fn allocate_recording<G, F>(mut generate: G, mut reserve_artifact: F) -> (r: Result<SessionId, String>)
    where
        G: FnMut(u32) -> Result<SessionId, String>,
        F: FnMut(u32, &SessionId) -> ReservationOutcome,
    requires
        forall|attempt: u32| call_requires(generate, (attempt,)),
        forall|attempt: u32, id: &SessionId| call_requires(reserve_artifact, (attempt, id)),
    ensures
        r matches Ok(id) ==> exists|gs: Seq<G>, fs: Seq<F>, ids: Seq<SessionId>, g: G, f: F|
            #![trigger collided(gs, fs, ids), reserved_at(g, f, attempt_number(ids), id)]
            {
                &&& ids.len() < MAX_ALLOCATION_ATTEMPTS
                &&& collided(gs, fs, ids)
                &&& reserved_at(g, f, attempt_number(ids), id)
            },
        r matches Err(e) ==> exists|gs: Seq<G>, fs: Seq<F>, ids: Seq<SessionId>| {
            &&& collided(gs, fs, ids)
            &&& {
                ||| ids.len() == MAX_ALLOCATION_ATTEMPTS && e@ == collision_text()
                ||| ids.len() < MAX_ALLOCATION_ATTEMPTS && exists|g: G| #[trigger] generation_failed_at(
                    g,
                    attempt_number(ids),
                    e,
                )
                ||| ids.len() < MAX_ALLOCATION_ATTEMPTS && exists|g: G, f: F, id: SessionId, m: String| {
                    &&& #[trigger] reservation_failed_at(g, f, attempt_number(ids), id, m)
                    &&& e@ == reservation_failure_text(m@)
                }
            }
        },
{
    let mut attempt: u32 = 0;
    let ghost mut gs: Seq<G> = Seq::empty();
    let ghost mut fs: Seq<F> = Seq::empty();
    let ghost mut ids: Seq<SessionId> = Seq::empty();
    loop
        invariant
            attempt < MAX_ALLOCATION_ATTEMPTS,
            ids.len() == attempt,
            collided(gs, fs, ids),
            forall|a: u32| call_requires(generate, (a,)),
            forall|a: u32, id: &SessionId| call_requires(reserve_artifact, (a, id)),
        decreases MAX_ALLOCATION_ATTEMPTS - attempt,
    {
        let ghost g0 = generate;
        let generated = generate(attempt);
        let ghost f0 = reserve_artifact;
        let outcome = match &generated {
            Ok(session_id) => Some(reserve_artifact(attempt, session_id)),
            Err(_) => None,
        };
        proof {
            assert(call_ensures(g0, (attempt,), generated));
            if generated is Ok {
                assert(call_ensures(f0, (attempt, &generated->Ok_0), outcome->0));
            }
        }
        let ghost generated_copy = generated;
        match allocation_step(attempt, generated, outcome) {
            Some(done) => {
                proof {
                    match generated_copy {
                        Ok(id) => {
                            match outcome->0 {
                                ReservationOutcome::Reserved => {
                                    assert(reserved_at(g0, f0, attempt_number(ids), id));
                                    assert(collided(gs, fs, ids));
                                },
                                ReservationOutcome::AlreadyExists => {
                                    let gs2 = gs.push(g0);
                                    let fs2 = fs.push(f0);
                                    let ids2 = ids.push(id);
                                    lemma_collided_push(gs, fs, ids, g0, f0, id);
                                    assert(collided(gs2, fs2, ids2));
                                },
                                ReservationOutcome::Failed(m) => {
                                    assert(reservation_failed_at(g0, f0, attempt_number(ids), id, m));
                                    assert(collided(gs, fs, ids));
                                },
                            }
                        },
                        Err(e) => {
                            assert(generation_failed_at(g0, attempt_number(ids), e));
                            assert(collided(gs, fs, ids));
                        },
                    }
                }
                return done;
            },
            None => {
                proof {
                    let id = generated_copy->Ok_0;
                    lemma_collided_push(gs, fs, ids, g0, f0, id);
                    gs = gs.push(g0);
                    fs = fs.push(f0);
                    ids = ids.push(id);
                }
                attempt = attempt + 1;
            },
        }
    }
}

/// One more collided attempt extends the collided attempts.
proof fn lemma_collided_push<G, F>(gs: Seq<G>, fs: Seq<F>, ids: Seq<SessionId>, g: G, f: F, id: SessionId)
    where
        G: FnMut(u32) -> Result<SessionId, String>,
        F: FnMut(u32, &SessionId) -> ReservationOutcome,
    requires
        collided(gs, fs, ids),
        ids.len() < u32::MAX,
        call_ensures(g, (ids.len() as u32,), Ok::<SessionId, String>(id)),
        call_ensures(f, (ids.len() as u32, &id), ReservationOutcome::AlreadyExists),
    ensures
        collided(gs.push(g), fs.push(f), ids.push(id)),
{
    let gs2 = gs.push(g);
    let fs2 = fs.push(f);
    let ids2 = ids.push(id);
    assert forall|i: int| 0 <= i < ids2.len() implies call_ensures(
        gs2[i],
        (i as u32,),
        Ok::<SessionId, String>(#[trigger] ids2[i]),
    ) && call_ensures(fs2[i], (i as u32, &ids2[i]), ReservationOutcome::AlreadyExists) by {
        if i < ids.len() {
            assert(gs2[i] == gs[i]);
            assert(fs2[i] == fs[i]);
            assert(ids2[i] == ids[i]);
        }
    }
}

} // verus!
