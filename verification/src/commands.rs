//! Command-side policy: which windows may run which commands, which overlay
//! surface matches the native session state, and which recordings a batch
//! may queue.

use vstd::prelude::*;
use std::path::Path;
use crate::text::{chars_of, same_text, string_from_chars, sub_chars};

verus! {

/// The label of the main window.
pub const MAIN_WINDOW_LABEL: &'static str = "main";
/// The label of the live overlay window.
pub const LIVE_OVERLAY_WINDOW_LABEL: &'static str = "live-overlay";

/// Privileged commands run only from the main window.
pub fn is_main_window(label: &str) -> (r: bool)
    ensures
        r == (label@ == MAIN_WINDOW_LABEL@),
{
    same_text(label, MAIN_WINDOW_LABEL)
}

/// Overlay commands run from the main window or the live overlay.
pub fn is_main_or_overlay_window(label: &str) -> (r: bool)
    ensures
        r == (label@ == MAIN_WINDOW_LABEL@ || label@ == LIVE_OVERLAY_WINDOW_LABEL@),
{
    is_main_window(label) || same_text(label, LIVE_OVERLAY_WINDOW_LABEL)
}

/// The refusal shown to a window that may not run a command.
pub open spec fn forbidden_text() -> Seq<char> {
    "Command is not available from this window."@
}

pub fn forbidden_command_window_message() -> (s: String)
    ensures
        s@ == forbidden_text(),
{
    String::from_str("Command is not available from this window.")
}

/// A command's typed error: a stable code and a message.
#[derive(Debug, Clone, PartialEq, Eq)]
pub struct CommandError {
    pub code: String,
    pub message: String,
}

/// The code of a command refused for its window.
pub open spec fn unauthorized_code() -> Seq<char> {
    "UNAUTHORIZED_WINDOW"@
}

/// The typed refusal of a speech-to-text command from another window.
pub fn forbidden_stt_window() -> (e: CommandError)
    ensures
        e.code@ == unauthorized_code(),
        e.message@ == forbidden_text(),
{
    CommandError {
        code: String::from_str("UNAUTHORIZED_WINDOW"),
        message: forbidden_command_window_message(),
    }
}

/// Only the main window.
pub fn ensure_main(label: &str) -> (r: Result<(), String>)
    ensures
        r is Ok <==> label@ == MAIN_WINDOW_LABEL@,
        r matches Err(m) ==> m@ == forbidden_text(),
{
    if is_main_window(label) {
        Ok(())
    } else {
        Err(forbidden_command_window_message())
    }
}

/// The main window or the live overlay.
pub fn ensure_main_or_overlay(label: &str) -> (r: Result<(), String>)
    ensures
        r is Ok <==> (label@ == MAIN_WINDOW_LABEL@ || label@ == LIVE_OVERLAY_WINDOW_LABEL@),
        r matches Err(m) ==> m@ == forbidden_text(),
{
    if is_main_or_overlay_window(label) {
        Ok(())
    } else {
        Err(forbidden_command_window_message())
    }
}

/// Only the main window, with the typed speech-to-text error.
pub fn ensure_main_stt(label: &str) -> (r: Result<(), CommandError>)
    ensures
        r is Ok <==> label@ == MAIN_WINDOW_LABEL@,
        r matches Err(e) ==> e.code@ == unauthorized_code() && e.message@ == forbidden_text(),
{
    if is_main_window(label) {
        Ok(())
    } else {
        Err(forbidden_stt_window())
    }
}

/// The native live session's phase.
#[derive(Debug, Clone, Copy, PartialEq, Eq, Structural)]
pub enum LiveSessionStatus {
    Idle,
    Armed,
    Listening,
    Speaking,
    Settling,
    Saving,
    Blocked,
}

/// What the overlay surface is checked against: the session's phase, its
/// error, and the text it last produced.
#[derive(Debug, Clone, PartialEq, Eq)]
pub struct LiveOverlayState {
    pub status: LiveSessionStatus,
    pub error: Option<String>,
    pub final_text: Option<String>,
}

/// White space as `char::is_whitespace` has it (the Unicode `White_Space`
/// property).
pub open spec fn is_white_space(c: char) -> bool {
    ||| ('\u{9}' <= c && c <= '\u{d}')
    ||| c == ' '
    ||| c == '\u{85}'
    ||| c == '\u{a0}'
    ||| c == '\u{1680}'
    ||| ('\u{2000}' <= c && c <= '\u{200a}')
    ||| c == '\u{2028}'
    ||| c == '\u{2029}'
    ||| c == '\u{202f}'
    ||| c == '\u{205f}'
    ||| c == '\u{3000}'
}

fn white_space(c: char) -> (r: bool)
    ensures
        r == is_white_space(c),
{
    ('\u{9}' <= c && c <= '\u{d}') || c == ' ' || c == '\u{85}' || c == '\u{a0}' || c == '\u{1680}'
        || ('\u{2000}' <= c && c <= '\u{200a}') || c == '\u{2028}' || c == '\u{2029}' || c == '\u{202f}'
        || c == '\u{205f}' || c == '\u{3000}'
}

/// Text with something other than white space in it.
pub open spec fn has_visible_text(t: Seq<char>) -> bool {
    exists|i: int| 0 <= i < t.len() && !is_white_space(#[trigger] t[i])
}

fn visible_text(t: &str) -> (r: bool)
    ensures
        r == has_visible_text(t@),
{
    let chars = chars_of(t);
    let mut i: usize = 0;
    while i < chars.len()
        invariant
            chars@ == t@,
            i <= chars.len(),
            forall|k: int| 0 <= k < i ==> is_white_space(#[trigger] chars@[k]),
        decreases chars.len() - i,
    {
        if !white_space(chars[i]) {
            return true;
        }
        i = i + 1;
    }
    false
}

/// Which overlay surfaces each phase allows: an idle session shows the
/// collapsed or expanded surface without an error, the success surface with
/// visible final text and no error, the feedback surface with an error; an
/// armed one initializes; listening and speaking record; settling and saving
/// process; a blocked one shows feedback.
pub open spec fn surface_matches(view: LiveOverlayState, surface: Seq<char>) -> bool {
    match view.status {
        LiveSessionStatus::Idle => {
            if surface == "collapsed"@ || surface == "expanded"@ {
                view.error is None
            } else if surface == "success"@ {
                view.error is None && (view.final_text matches Some(t) && has_visible_text(t@))
            } else if surface == "feedback"@ {
                view.error is Some
            } else {
                false
            }
        },
        LiveSessionStatus::Armed => surface == "initializing"@,
        LiveSessionStatus::Listening | LiveSessionStatus::Speaking => surface == "recording"@,
        LiveSessionStatus::Settling | LiveSessionStatus::Saving => surface == "processing"@,
        LiveSessionStatus::Blocked => surface == "feedback"@,
    }
}

/// Whether the overlay may show `surface` in the session's current state.
pub fn live_overlay_surface_matches_state(view: &LiveOverlayState, surface: &str) -> (r: bool)
    ensures
        r == surface_matches(*view, surface@),
{
    match view.status {
        LiveSessionStatus::Idle => {
            if same_text(surface, "collapsed") || same_text(surface, "expanded") {
                view.error.is_none()
            } else if same_text(surface, "success") {
                view.error.is_none() && match &view.final_text {
                    Some(text) => visible_text(text.as_str()),
                    None => false,
                }
            } else if same_text(surface, "feedback") {
                view.error.is_some()
            } else {
                false
            }
        },
        LiveSessionStatus::Armed => same_text(surface, "initializing"),
        LiveSessionStatus::Listening | LiveSessionStatus::Speaking => same_text(surface, "recording"),
        LiveSessionStatus::Settling | LiveSessionStatus::Saving => same_text(surface, "processing"),
        LiveSessionStatus::Blocked => same_text(surface, "feedback"),
    }
}

/// A live setting that may change only while no live session runs.
#[derive(Debug, Clone, Copy, PartialEq, Eq, Structural)]
pub enum LiveSettingChange {
    HideOverlay,
    CaptureMode,
    InputDevice,
}

/// What a change refused during a live session is answered.
pub open spec fn live_setting_busy_text(change: LiveSettingChange) -> Seq<char> {
    match change {
        LiveSettingChange::HideOverlay => "Stop live before hiding the pill."@,
        LiveSettingChange::CaptureMode => "Stop live before changing live mode."@,
        LiveSettingChange::InputDevice => "Stop live before changing microphones."@,
    }
}

/// Whether a live setting may change now: only while no live session runs.
pub fn check_live_setting_change(live_started: bool, change: LiveSettingChange) -> (r: Result<(), String>)
    ensures
        r is Ok <==> !live_started,
        r matches Err(m) ==> m@ == live_setting_busy_text(change),
{
    if !live_started {
        return Ok(());
    }
    match change {
        LiveSettingChange::HideOverlay => Err(String::from_str("Stop live before hiding the pill.")),
        LiveSettingChange::CaptureMode => Err(String::from_str("Stop live before changing live mode.")),
        LiveSettingChange::InputDevice => Err(String::from_str("Stop live before changing microphones.")),
    }
}

/// What the overlay's request for a surface comes to: `Ok(false)` when the
/// overlay is hidden and no live session runs (nothing to show), `Ok(true)`
/// when the surface matches the session's state and is to be shown, and an
/// error when it does not match.
pub fn overlay_surface_request(
    overlay_hidden: bool,
    live_started: bool,
    view: &LiveOverlayState,
    surface: &str,
) -> (r: Result<bool, String>)
    ensures
        overlay_hidden && !live_started ==> r == Ok::<bool, String>(false),
        !(overlay_hidden && !live_started) ==> (r is Ok <==> surface_matches(*view, surface@)),
        !(overlay_hidden && !live_started) ==> (r matches Ok(show) ==> show),
        r matches Err(m) ==> m@ == "Live overlay surface does not match native session state."@,
{
    if overlay_hidden && !live_started {
        return Ok(false);
    }
    if !live_overlay_surface_matches_state(view, surface) {
        return Err(String::from_str("Live overlay surface does not match native session state."));
    }
    Ok(true)
}

/// The most recordings one batch may queue.
pub const MAX_TRANSCRIBE_BATCH_PATHS: usize = 200;

/// The code of a refused recording path.
pub open spec fn audio_decode_code() -> Seq<char> {
    "AUDIO_DECODE"@
}

/// The typed error for a recording path that cannot be queued.
pub fn invalid_recording_path_error(message: &str) -> (e: CommandError)
    ensures
        e.code@ == audio_decode_code(),
        e.message@ == message@,
{
    CommandError { code: String::from_str("AUDIO_DECODE"), message: String::from_str(message) }
}

/// The code of a character's ASCII lower case.
pub open spec fn ascii_lower(c: char) -> u32 {
    if 'A' <= c && c <= 'Z' { ((c as u32) + 32) as u32 } else { c as u32 }
}

/// Equality ignoring ASCII case, as `str::eq_ignore_ascii_case`.
pub open spec fn eq_ignore_ascii_case(a: Seq<char>, b: Seq<char>) -> bool {
    a.len() == b.len() && forall|i: int| 0 <= i < a.len() ==> ascii_lower(#[trigger] a[i]) == ascii_lower(b[i])
}

fn lower_ascii(c: char) -> (r: u32)
    ensures
        r == ascii_lower(c),
{
    if 'A' <= c && c <= 'Z' {
        (c as u32) + 32
    } else {
        c as u32
    }
}

fn same_ignoring_ascii_case(a: &str, b: &str) -> (r: bool)
    ensures
        r == eq_ignore_ascii_case(a@, b@),
{
    let av = chars_of(a);
    let bv = chars_of(b);
    if av.len() != bv.len() {
        return false;
    }
    let mut i: usize = 0;
    while i < av.len()
        invariant
            av@ == a@,
            bv@ == b@,
            av.len() == bv.len(),
            i <= av.len(),
            forall|k: int| 0 <= k < i ==> ascii_lower(#[trigger] av@[k]) == ascii_lower(bv@[k]),
        decreases av.len() - i,
    {
        if lower_ascii(av[i]) != lower_ascii(bv[i]) {
            return false;
        }
        i = i + 1;
    }
    true
}

/// The media extensions a batch accepts.
pub open spec fn recording_extension(e: Seq<char>) -> bool {
    ||| eq_ignore_ascii_case(e, "mp3"@)
    ||| eq_ignore_ascii_case(e, "m4a"@)
    ||| eq_ignore_ascii_case(e, "wav"@)
    ||| eq_ignore_ascii_case(e, "mp4"@)
    ||| eq_ignore_ascii_case(e, "flac"@)
    ||| eq_ignore_ascii_case(e, "ogg"@)
    ||| eq_ignore_ascii_case(e, "webm"@)
}

/// Whether an extension, in any ASCII case, is a recording's.
pub fn is_recording_extension(extension: &str) -> (r: bool)
    ensures
        r == recording_extension(extension@),
{
    same_ignoring_ascii_case(extension, "mp3")
        || same_ignoring_ascii_case(extension, "m4a")
        || same_ignoring_ascii_case(extension, "wav")
        || same_ignoring_ascii_case(extension, "mp4")
        || same_ignoring_ascii_case(extension, "flac")
        || same_ignoring_ascii_case(extension, "ogg")
        || same_ignoring_ascii_case(extension, "webm")
}

/// Where `extension` can stand in `path` as the extension the standard
/// library finds there, by what its documentation gives on every platform:
/// it is the part of the file name after its last `.`, so it holds no `.`,
/// and `.` followed by it occurs in the path with nothing after it but
/// separators and `.` components. (Whether `/` can stand in a file name
/// depends on the platform and the path's prefix, so nothing is said of
/// it.)
pub open spec fn extension_found_in(path: Seq<char>, extension: Seq<char>) -> bool {
    &&& forall|i: int| 0 <= i < extension.len() ==> #[trigger] extension[i] != '.'
    &&& exists|k: int| {
        &&& 0 <= k
        &&& k + extension.len() + 1 <= path.len()
        &&& #[trigger] path.subrange(k, k + extension.len() + 1) == seq!['.'] + extension
        &&& forall|j: int| k + extension.len() + 1 <= j < path.len() ==> {
            ||| path[j] == '/'
            ||| path[j] == '\\'
            ||| path[j] == '.'
        }
    }
}

/// An outcome the standard library's extension lookup may give for `path`:
/// none, or an extension found in it.
pub open spec fn extension_admitted(path: Seq<char>, found: Option<Seq<char>>) -> bool {
    found matches Some(e) ==> extension_found_in(path, e)
}

/// The last position of `c` in `s`, or -1.
pub open spec fn last_position_of(s: Seq<char>, c: char) -> int
    decreases s.len(),
{
    if s.len() == 0 {
        -1
    } else if s.last() == c {
        s.len() - 1
    } else {
        last_position_of(s.drop_last(), c)
    }
}

/// What follows a path's last `/`.
pub open spec fn plain_file_name(path: Seq<char>) -> Seq<char> {
    path.skip(last_position_of(path, '/') + 1)
}

/// A path whose syntax is read alike on every platform: no `\\`, no `:`
/// (so no drive or other prefix), no leading `//`, no trailing `/`, and a
/// last component that is neither `.` nor made of dots alone.
pub open spec fn plain_path(path: Seq<char>) -> bool {
    &&& forall|i: int| 0 <= i < path.len() ==> #[trigger] path[i] != '\\' && path[i] != ':'
    &&& !(path.len() >= 2 && path[0] == '/' && path[1] == '/')
    &&& path.len() > 0 && path.last() != '/'
    &&& exists|j: int| 0 <= j < plain_file_name(path).len() && #[trigger] plain_file_name(path)[j] != '.'
}

/// The extension of a plain path, as the standard library documents it:
/// what follows the file name's last `.`, when that `.` is not its first
/// character; none otherwise.
pub open spec fn plain_extension(path: Seq<char>) -> Option<Seq<char>> {
    let name = plain_file_name(path);
    let q = last_position_of(name, '.');
    if q > 0 {
        Some(name.skip(q + 1))
    } else {
        None
    }
}

/// `Path::new(path).extension()` from the standard library, as text. Which
/// part of a path is its file name depends on the platform's path syntax
/// (whether `\\` separates components), so of the extension found nothing
/// is stated but what the documentation gives everywhere
/// (`extension_found_in`), and, for a path in the syntax every platform
/// reads alike (`plain_path`), the documented extension itself
/// (`plain_extension`).
#[verifier::external_body]
fn path_extension(path: &str) -> (r: Option<String>)
    ensures
        r matches Some(e) ==> extension_found_in(path@, e@),
        plain_path(path@) ==> found_view(r) == plain_extension(path@),
{
    Path::new(path).extension().and_then(|e| e.to_str()).map(|e| e.to_string())
}

/// The view of a found extension.
pub open spec fn found_view(found: Option<String>) -> Option<Seq<char>> {
    match found {
        Some(e) => Some(e@),
        None => None,
    }
}

/// Whether the extension a path was found to have, if any, is a
/// recording's.
pub fn is_recording_extension_of(extension: &Option<String>) -> (r: bool)
    ensures
        r == (extension matches Some(e) && recording_extension(e@)),
{
    match extension {
        Some(e) => is_recording_extension(e.as_str()),
        None => false,
    }
}

/// Whether a path names a supported audio or video recording by the
/// extension the platform finds in it (`is_recording_extension_of` on
/// `Path::extension`).
pub fn is_supported_recording_path(path: &str) -> (r: bool)
    ensures
        exists|found: Option<Seq<char>>| {
            &&& extension_admitted(path@, found)
            &&& r == (found matches Some(e) && recording_extension(e))
        },
        plain_path(path@) ==> r == (plain_extension(path@) matches Some(e) && recording_extension(e)),
{
    let extension = path_extension(path);
    let r = is_recording_extension_of(&extension);
    assert(extension_admitted(path@, found_view(extension)));
    r
}

/// A transcript's extension, in any ASCII case.
pub open spec fn transcript_extension(e: Seq<char>) -> bool {
    eq_ignore_ascii_case(e, "txt"@)
}

/// Whether a path names a transcript by the extension the platform finds
/// in it.
pub fn is_transcript_path(path: &str) -> (r: bool)
    ensures
        exists|found: Option<Seq<char>>| {
            &&& extension_admitted(path@, found)
            &&& r == (found matches Some(e) && transcript_extension(e))
        },
        plain_path(path@) ==> r == (plain_extension(path@) matches Some(e) && transcript_extension(e)),
{
    let extension = path_extension(path);
    let r = match &extension {
        Some(e) => same_ignoring_ascii_case(e.as_str(), "txt"),
        None => false,
    };
    assert(extension_admitted(path@, found_view(extension)));
    r
}

/// Whether a path names a file the app may open or reveal: a recording or
/// a transcript, by the extension the platform finds in it.
pub fn is_yap_media_or_transcript_path(path: &str) -> (r: bool)
    ensures
        exists|found: Option<Seq<char>>| {
            &&& extension_admitted(path@, found)
            &&& r == (found matches Some(e) && (recording_extension(e) || transcript_extension(e)))
        },
        plain_path(path@) ==> r == (plain_extension(path@) matches Some(e) && (recording_extension(e)
            || transcript_extension(e))),
{
    let extension = path_extension(path);
    let r = match &extension {
        Some(e) => is_recording_extension(e.as_str()) || same_ignoring_ascii_case(e.as_str(), "txt"),
        None => false,
    };
    assert(extension_admitted(path@, found_view(extension)));
    r
}

/// The refusal of reading a file that is not a transcript.
pub open spec fn transcript_read_refusal_text() -> Seq<char> {
    "Only transcript text files can be read."@
}

/// The first check of a transcript read, before anything is resolved on
/// disk: the path must name a transcript.
pub fn admit_transcript_read(path: &str) -> (r: Result<(), String>)
    ensures
        exists|found: Option<Seq<char>>| {
            &&& extension_admitted(path@, found)
            &&& (r is Ok <==> (found matches Some(e) && transcript_extension(e)))
        },
        plain_path(path@) ==> (r is Ok <==> (plain_extension(path@) matches Some(e) && transcript_extension(e))),
        r matches Err(m) ==> m@ == transcript_read_refusal_text(),
{
    if is_transcript_path(path) {
        Ok(())
    } else {
        Err(String::from_str("Only transcript text files can be read."))
    }
}

/// The position of the last separator (`/` or `\\`) in a path, or -1.
pub open spec fn last_separator(path: Seq<char>) -> int {
    let a = last_position_of(path, '/');
    let b = last_position_of(path, '\\');
    if a < b { b } else { a }
}

/// Where a file name's stem ends: at its last `.` when that is not its
/// first character, else at its end.
pub open spec fn file_stem_end(name: Seq<char>) -> int {
    let q = last_position_of(name, '.');
    if q > 0 { q } else { name.len() as int }
}

/// The sibling a polished transcript is written to: the same directory,
/// the file's stem, then `.polished.txt`; none for a path without a file
/// name.
pub open spec fn polished_sibling(path: Seq<char>) -> Option<Seq<char>> {
    let name = path.skip(last_separator(path) + 1);
    if name.len() == 0 {
        None
    } else {
        Some(path.take(last_separator(path) + 1) + name.take(file_stem_end(name)) + ".polished.txt"@)
    }
}

proof fn lemma_last_position_bounds(s: Seq<char>, c: char)
    ensures
        -1 <= last_position_of(s, c) < s.len(),
        last_position_of(s, c) >= 0 ==> s[last_position_of(s, c)] == c,
    decreases s.len(),
{
    if s.len() > 0 && s.last() != c {
        lemma_last_position_bounds(s.drop_last(), c);
    }
}

fn last_index_of_char(v: &Vec<char>, c: char) -> (r: Option<usize>)
    ensures
        match r {
            Some(i) => last_position_of(v@, c) == i as int,
            None => last_position_of(v@, c) == -1,
        },
{
    let mut i: usize = v.len();
    assert(v@.take(v@.len() as int) =~= v@);
    while i > 0
        invariant
            i <= v@.len(),
            last_position_of(v@, c) == last_position_of(v@.take(i as int), c),
        decreases i,
    {
        if v[i - 1] == c {
            assert(v@.take(i as int).last() == c);
            return Some(i - 1);
        }
        assert(v@.take(i as int).drop_last() =~= v@.take(i - 1));
        i = i - 1;
    }
    None
}

/// The path a polished copy of the transcript at `path` is written to.
pub fn polished_path(path: &str) -> (r: Option<String>)
    ensures
        found_view(r) == polished_sibling(path@),
{
    let chars = chars_of(path);
    let slash = last_index_of_char(&chars, '/');
    let backslash = last_index_of_char(&chars, '\\');
    proof {
        lemma_last_position_bounds(chars@, '/');
        lemma_last_position_bounds(chars@, '\\');
    }
    let start: usize = match (slash, backslash) {
        (Some(a), Some(b)) => {
            assert(a < chars@.len() && b < chars@.len());
            assert(chars@.len() == chars.len());
            if a < b {
                b + 1
            } else {
                a + 1
            }
        },
        (Some(a), None) => {
            assert(a < chars@.len());
            a + 1
        },
        (None, Some(b)) => {
            assert(b < chars@.len());
            b + 1
        },
        (None, None) => 0,
    };
    assert(start as int == last_separator(chars@) + 1);
    if start == chars.len() {
        return None;
    }
    let name = sub_chars(&chars, start, chars.len());
    assert(name@ =~= chars@.skip(start as int));
    let dot = last_index_of_char(&name, '.');
    proof {
        lemma_last_position_bounds(name@, '.');
    }
    let stem_end: usize = match dot {
        Some(q) => if q > 0 { q } else { name.len() },
        None => name.len(),
    };
    let mut out = sub_chars(&chars, 0, start);
    let stem = sub_chars(&name, 0, stem_end);
    let suffix = chars_of(".polished.txt");
    let mut i: usize = 0;
    while i < stem.len()
        invariant
            i <= stem@.len(),
            out@ == chars@.subrange(0, start as int) + stem@.take(i as int),
        decreases stem@.len() - i,
    {
        out.push(stem[i]);
        assert(out@ =~= chars@.subrange(0, start as int) + stem@.take(i + 1));
        i = i + 1;
    }
    let ghost before = out@;
    let mut j: usize = 0;
    while j < suffix.len()
        invariant
            j <= suffix@.len(),
            out@ == before + suffix@.take(j as int),
        decreases suffix@.len() - j,
    {
        out.push(suffix[j]);
        assert(out@ =~= before + suffix@.take(j + 1));
        j = j + 1;
    }
    proof {
        assert(stem@.take(stem@.len() as int) =~= stem@);
        assert(suffix@.take(suffix@.len() as int) =~= suffix@);
        assert(chars@.subrange(0, start as int) =~= chars@.take(start as int));
        assert(stem@ =~= name@.take(stem_end as int));
        assert(out@ =~= polished_sibling(path@)->0);
    }
    Some(string_from_chars(out.as_slice()))
}

/// What a playback admission hands back: the revocable playback address,
/// the file's length as decimal text, and whether its waveform may be
/// decoded.
#[derive(Debug, PartialEq, Eq)]
pub struct RecordingPlaybackAdmission {
    pub playback_path: String,
    pub byte_length: String,
    pub waveform_eligible: bool,
}

/// The refusal of a batch larger than `MAX_TRANSCRIBE_BATCH_PATHS`.
pub open spec fn too_many_recordings_text() -> Seq<char> {
    "Too many recordings queued. Add fewer files at once."@
}

/// The refusal of a path that is not a recording.
pub open spec fn unsupported_recording_text() -> Seq<char> {
    "Choose a supported audio or video file."@
}

/// The checks a batch passes before its files are resolved on disk, given
/// the extension found in each path: first its size, then each extension.
pub fn validate_recording_extensions(extensions: &Vec<Option<String>>) -> (r: Result<(), CommandError>)
    ensures
        extensions.len() > MAX_TRANSCRIBE_BATCH_PATHS ==> (r matches Err(e) && e.code@
            == audio_decode_code() && e.message@ == too_many_recordings_text()),
        extensions.len() <= MAX_TRANSCRIBE_BATCH_PATHS ==> (r is Ok <==> forall|i: int|
            0 <= i < extensions.len() ==> (#[trigger] extensions@[i] matches Some(e) && recording_extension(e@))),
        extensions.len() <= MAX_TRANSCRIBE_BATCH_PATHS ==> (r matches Err(e) ==> e.code@
            == audio_decode_code() && e.message@ == unsupported_recording_text()),
{
    if extensions.len() > MAX_TRANSCRIBE_BATCH_PATHS {
        return Err(invalid_recording_path_error("Too many recordings queued. Add fewer files at once."));
    }
    let mut i: usize = 0;
    while i < extensions.len()
        invariant
            i <= extensions.len(),
            extensions.len() <= MAX_TRANSCRIBE_BATCH_PATHS,
            forall|k: int| 0 <= k < i ==> (#[trigger] extensions@[k] matches Some(e) && recording_extension(e@)),
        decreases extensions.len() - i,
    {
        if !is_recording_extension_of(&extensions[i]) {
            return Err(invalid_recording_path_error("Choose a supported audio or video file."));
        }
        i = i + 1;
    }
    Ok(())
}

/// The checks a batch passes before its files are resolved on disk: first
/// its size, then the extension the platform finds in each path
/// (`validate_recording_extensions` on `Path::extension` of each).
pub fn validate_recording_paths(paths: &Vec<String>) -> (r: Result<(), CommandError>)
    ensures
        paths.len() > MAX_TRANSCRIBE_BATCH_PATHS ==> (r matches Err(e) && e.code@
            == audio_decode_code() && e.message@ == too_many_recordings_text()),
        paths.len() <= MAX_TRANSCRIBE_BATCH_PATHS ==> (r matches Err(e) ==> e.code@
            == audio_decode_code() && e.message@ == unsupported_recording_text()),
        paths.len() <= MAX_TRANSCRIBE_BATCH_PATHS ==> exists|found: Seq<Option<Seq<char>>>| {
            &&& found.len() == paths.len()
            &&& forall|i: int| 0 <= i < found.len() ==> extension_admitted(paths@[i]@, #[trigger] found[i])
            &&& (r is Ok <==> forall|i: int| 0 <= i < found.len() ==> (#[trigger] found[i] matches Some(e)
                && recording_extension(e)))
        },
{
    let mut extensions: Vec<Option<String>> = Vec::new();
    let ghost mut found: Seq<Option<Seq<char>>> = Seq::empty();
    let mut i: usize = 0;
    while i < paths.len()
        invariant
            i <= paths.len(),
            extensions.len() == i,
            found.len() == i,
            forall|k: int| 0 <= k < i ==> found[k] == found_view(#[trigger] extensions@[k]),
            forall|k: int| 0 <= k < i ==> extension_admitted(paths@[k]@, #[trigger] found[k]),
        decreases paths.len() - i,
    {
        let extension = path_extension(paths[i].as_str());
        proof {
            found = found.push(found_view(extension));
        }
        extensions.push(extension);
        i = i + 1;
    }
    let r = validate_recording_extensions(&extensions);
    proof {
        if paths.len() <= MAX_TRANSCRIBE_BATCH_PATHS {
            assert forall|k: int| 0 <= k < found.len() implies ((#[trigger] found[k] matches Some(e)
                && recording_extension(e)) <==> (extensions@[k] matches Some(e) && recording_extension(e@))) by {
                assert(found[k] == found_view(extensions@[k]));
            }
        }
    }
    r
}

/// File actions run only from the main window.
pub fn ensure_main_window(label: &str) -> (r: Result<(), String>)
    ensures
        r is Ok <==> label@ == MAIN_WINDOW_LABEL@,
        r matches Err(m) ==> m@ == "This file action is only available from the main window."@,
{
    if is_main_window(label) {
        Ok(())
    } else {
        Err(String::from_str("This file action is only available from the main window."))
    }
}

/// The workspaces the main window can be asked to show.
pub open spec fn main_workspace(workspace: Seq<char>) -> bool {
    workspace == "home"@ || workspace == "transcribe"@ || workspace == "polish"@
}

/// Whether `label` may ask the main window to show `workspace`.
pub fn check_main_workspace(label: &str, workspace: &str) -> (r: Result<(), String>)
    ensures
        !(label@ == MAIN_WINDOW_LABEL@ || label@ == LIVE_OVERLAY_WINDOW_LABEL@) ==> (r matches Err(m) && m@
            == forbidden_text()),
        (label@ == MAIN_WINDOW_LABEL@ || label@ == LIVE_OVERLAY_WINDOW_LABEL@) ==> (r is Ok <==> main_workspace(
            workspace@,
        )),
        (label@ == MAIN_WINDOW_LABEL@ || label@ == LIVE_OVERLAY_WINDOW_LABEL@) ==> (r matches Err(m)
            ==> m@ == "Unsupported workspace."@),
{
    ensure_main_or_overlay(label)?;
    if same_text(workspace, "home") || same_text(workspace, "transcribe") || same_text(workspace, "polish") {
        Ok(())
    } else {
        Err(String::from_str("Unsupported workspace."))
    }
}

/// A local compute target as the settings list shows it.
#[derive(Debug, Clone, PartialEq, Eq)]
pub struct LocalComputeTargetView {
    pub id: String,
    pub label: String,
    pub selected: bool,
}

/// The local compute targets, with the saved one selected, or the first one
/// when the saved one is not listed.
pub fn local_compute_targets(selected_id: &str) -> (targets: Vec<LocalComputeTargetView>)
    ensures
        targets@.len() == 2,
        targets@[0].id@ == "auto"@ && targets@[0].label@ == "Auto (CPU)"@,
        targets@[1].id@ == "cpu"@ && targets@[1].label@ == "CPU"@,
        targets@[1].selected == (selected_id@ == "cpu"@),
        targets@[0].selected == (selected_id@ != "cpu"@),
{
    let auto_selected = same_text(selected_id, "auto");
    let cpu_selected = same_text(selected_id, "cpu");
    proof {
        reveal_strlit("auto");
        reveal_strlit("cpu");
        if cpu_selected {
            assert(selected_id@ != "auto"@) by {
                assert(selected_id@.len() == 3);
                assert("auto"@.len() == 4);
            }
        }
    }
    let mut targets: Vec<LocalComputeTargetView> = Vec::new();
    targets.push(LocalComputeTargetView {
        id: String::from_str("auto"),
        label: String::from_str("Auto (CPU)"),
        selected: auto_selected || !cpu_selected,
    });
    targets.push(LocalComputeTargetView {
        id: String::from_str("cpu"),
        label: String::from_str("CPU"),
        selected: cpu_selected,
    });
    targets
}

/// Whether the local compute target may be changed to `target_id`: not while
/// a live session runs, and only to a listed target.
pub fn check_local_compute_target(live_started: bool, target_id: &str) -> (r: Result<(), String>)
    ensures
        live_started ==> (r matches Err(m) && m@ == "Stop live before changing local compute."@),
        !live_started ==> (r is Ok <==> (target_id@ == "auto"@ || target_id@ == "cpu"@)),
        !live_started ==> (r matches Err(m) ==> m@ == "Compute target unavailable."@),
{
    if live_started {
        return Err(String::from_str("Stop live before changing local compute."));
    }
    if !same_text(target_id, "auto") && !same_text(target_id, "cpu") {
        return Err(String::from_str("Compute target unavailable."));
    }
    Ok(())
}

} // verus!
