//! The native history catalog: live, recoverable and remote transcripts in
//! one newest-first list, with a durable per-identity hiding policy.

use vstd::prelude::*;
use crate::session::is_id_char;
use crate::commands::{CommandError, ensure_main, forbidden_text, MAIN_WINDOW_LABEL};
use crate::text::{chars_of, string_from_chars, split_chars, split_on, char_vecs_match, lemma_split_on_nonempty, same_text, text_lt, text_less, lemma_text_lt_total, lemma_text_lt_transitive, lemma_text_lt_irreflexive};

verus! {

/// A failed recording stays recoverable for a day after it was interrupted.
pub const RECOVERY_WINDOW_MS: u64 = 86_400_000;
/// The history shows at most this many sessions.
pub const MAX_HISTORY_SESSIONS: usize = 500;
/// Longest path, in characters, a history identity may name.
pub const MAX_HISTORY_PATH_CHARS: usize = 32_768;

/// Where a history entry comes from.
#[derive(Debug, Clone, Copy, PartialEq, Eq, Hash, PartialOrd, Ord, Structural)]
pub enum HistoryOrigin {
    Live,
    Remote,
}

/// The order of origins among sessions of the same time and identifier.
pub open spec fn origin_rank(origin: HistoryOrigin) -> int {
    match origin {
        HistoryOrigin::Live => 0,
        HistoryOrigin::Remote => 1,
    }
}

/// The origin's name in the visibility store.
pub fn origin_text(origin: HistoryOrigin) -> (s: &'static str)
    ensures
        s@ == (match origin { HistoryOrigin::Live => "live"@, HistoryOrigin::Remote => "remote"@ }),
{
    match origin {
        HistoryOrigin::Live => "live",
        HistoryOrigin::Remote => "remote",
    }
}

/// Reads an origin back from the visibility store.
pub fn origin_from_text(value: &str) -> (r: Option<HistoryOrigin>)
    ensures
        r == (if value@ == "live"@ {
            Some(HistoryOrigin::Live)
        } else if value@ == "remote"@ {
            Some(HistoryOrigin::Remote)
        } else {
            None::<HistoryOrigin>
        }),
{
    if same_text(value, "live") {
        Some(HistoryOrigin::Live)
    } else if same_text(value, "remote") {
        Some(HistoryOrigin::Remote)
    } else {
        None
    }
}

/// The newest visibility-store schema this build reads.
pub const VISIBILITY_SCHEMA_VERSION: i64 = 1;

/// A store written by a newer schema is refused.
pub fn visibility_schema_supported(version: i64) -> (r: bool)
    ensures
        r == (version <= VISIBILITY_SCHEMA_VERSION),
{
    version <= VISIBILITY_SCHEMA_VERSION
}

/// One row of the history.
#[derive(Debug, Clone, PartialEq, Eq)]
pub struct HistoryCatalogSession {
    pub capture_commit_path: Option<String>,
    pub created_at_ms: u64,
    pub name: String,
    pub origin: HistoryOrigin,
    pub output_path: String,
    pub recovery_state: Option<String>,
    pub session_id: String,
    pub source_path: String,
    pub warning: Option<String>,
}

/// What identifies a row for hiding: origin, session and output path.
#[derive(Debug, Clone, PartialEq, Eq, Hash)]
pub struct NativeHistoryIdentity {
    pub origin: HistoryOrigin,
    pub session_id: String,
    pub output_path: String,
}

/// Two identities name the same row.
pub open spec fn same_identity(a: NativeHistoryIdentity, b: NativeHistoryIdentity) -> bool {
    a.origin == b.origin && a.session_id@ == b.session_id@ && a.output_path@ == b.output_path@
}

/// The identity of a row.
pub open spec fn identity_of(s: HistoryCatalogSession) -> NativeHistoryIdentity {
    NativeHistoryIdentity { origin: s.origin, session_id: s.session_id, output_path: s.output_path }
}

impl HistoryCatalogSession {
    pub fn identity(&self) -> (id: NativeHistoryIdentity)
        ensures
            id == identity_of(*self),
    {
        NativeHistoryIdentity {
            origin: self.origin,
            session_id: self.session_id.clone(),
            output_path: self.output_path.clone(),
        }
    }

    pub fn duplicate(&self) -> (r: HistoryCatalogSession)
        ensures
            r == *self,
    {
        HistoryCatalogSession {
            capture_commit_path: match &self.capture_commit_path {
                Some(p) => Some(p.clone()),
                None => None,
            },
            created_at_ms: self.created_at_ms,
            name: self.name.clone(),
            origin: self.origin,
            output_path: self.output_path.clone(),
            recovery_state: match &self.recovery_state {
                Some(p) => Some(p.clone()),
                None => None,
            },
            session_id: self.session_id.clone(),
            source_path: self.source_path.clone(),
            warning: match &self.warning {
                Some(p) => Some(p.clone()),
                None => None,
            },
        }
    }
}

/// The history as shown: newest first, with maintenance warnings.
#[derive(Debug, PartialEq, Eq)]
pub struct HistoryCatalog {
    pub maintenance_warnings: Vec<String>,
    pub sessions: Vec<HistoryCatalogSession>,
}

/// The paths the client asked to hide that named current rows.
#[derive(Debug, PartialEq, Eq)]
pub struct HiddenHistoryMigration {
    pub migrated_output_paths: Vec<String>,
}

/// A finished live transcript.
#[derive(Debug, Clone, PartialEq, Eq)]
pub struct SavedLiveSession {
    pub session_id: String,
    pub name: String,
    pub source_path: String,
    pub output_path: String,
    pub created_at_ms: u64,
    pub warning: Option<String>,
    pub capture_commit_path: Option<String>,
    pub recovery_state: Option<String>,
}

/// The finished live transcripts and warnings about their folder.
#[derive(Debug, Clone, PartialEq, Eq)]
pub struct SavedLiveSessionCatalog {
    pub sessions: Vec<SavedLiveSession>,
    pub maintenance_warnings: Vec<String>,
}

/// An interrupted live recording that can still be recovered.
#[derive(Debug, Clone, PartialEq, Eq)]
pub struct RecoverableLiveSession {
    pub session_id: String,
    pub name: String,
    pub audio_partial_path: Option<String>,
    pub journal_partial_path: Option<String>,
    pub reason: String,
    pub expires_at_ms: u64,
}

/// A finished remote transcription.
#[derive(Debug, Clone, PartialEq, Eq)]
pub struct CompletedRemoteTranscript {
    pub session_id: String,
    pub name: String,
    pub source_path: String,
    pub output_path: String,
    pub created_at_ms: u64,
    pub warning: Option<String>,
}

/// The finished remote transcriptions and warnings about them.
#[derive(Debug, Clone, PartialEq, Eq)]
pub struct CompletedRemoteTranscriptCatalog {
    pub sessions: Vec<CompletedRemoteTranscript>,
    pub maintenance_warnings: Vec<String>,
}

/// The row of a finished live transcript.
pub open spec fn live_row(s: SavedLiveSession) -> HistoryCatalogSession {
    HistoryCatalogSession {
        capture_commit_path: s.capture_commit_path,
        created_at_ms: s.created_at_ms,
        name: s.name,
        origin: HistoryOrigin::Live,
        output_path: s.output_path,
        recovery_state: s.recovery_state,
        session_id: s.session_id,
        source_path: s.source_path,
        warning: s.warning,
    }
}

/// The path a recoverable row points at: its partial audio, else its partial
/// journal, else its name.
pub open spec fn recoverable_path(s: RecoverableLiveSession) -> Seq<char> {
    match s.audio_partial_path {
        Some(p) => p@,
        None => match s.journal_partial_path {
            Some(p) => p@,
            None => s.name@,
        },
    }
}

/// The row of a recoverable recording: dated a recovery window before it
/// expires, marked recoverable, warned with the interruption reason.
pub open spec fn recoverable_row_ok(s: RecoverableLiveSession, row: HistoryCatalogSession) -> bool {
    &&& row.capture_commit_path is None
    &&& row.created_at_ms == (if s.expires_at_ms >= RECOVERY_WINDOW_MS { (s.expires_at_ms - RECOVERY_WINDOW_MS) as u64 } else { 0u64 })
    &&& row.name == s.name
    &&& row.origin == HistoryOrigin::Live
    &&& row.output_path@ == recoverable_path(s)
    &&& row.recovery_state matches Some(r) && r@ == "recoverable"@
    &&& row.session_id == s.session_id
    &&& row.source_path@ == recoverable_path(s)
    &&& row.warning == Some(s.reason)
}

/// The row of a finished remote transcription.
pub open spec fn remote_row(s: CompletedRemoteTranscript) -> HistoryCatalogSession {
    HistoryCatalogSession {
        capture_commit_path: None,
        created_at_ms: s.created_at_ms,
        name: s.name,
        origin: HistoryOrigin::Remote,
        output_path: s.output_path,
        recovery_state: None,
        session_id: s.session_id,
        source_path: s.source_path,
        warning: s.warning,
    }
}

/// Rows in history order: newer first, then by session identifier, then
/// live before remote.
pub open spec fn row_before(a: HistoryCatalogSession, b: HistoryCatalogSession) -> bool {
    a.created_at_ms > b.created_at_ms
        || (a.created_at_ms == b.created_at_ms
            && (text_lt(a.session_id@, b.session_id@)
                || (a.session_id@ == b.session_id@ && origin_rank(a.origin) < origin_rank(b.origin))))
}

/// Rows that sort the same.
pub open spec fn row_tied(a: HistoryCatalogSession, b: HistoryCatalogSession) -> bool {
    a.created_at_ms == b.created_at_ms && a.session_id@ == b.session_id@ && a.origin == b.origin
}

fn row_is_before(a: &HistoryCatalogSession, b: &HistoryCatalogSession) -> (r: bool)
    ensures
        r == row_before(*a, *b),
{
    if a.created_at_ms != b.created_at_ms {
        return a.created_at_ms > b.created_at_ms;
    }
    if text_less(a.session_id.as_str(), b.session_id.as_str()) {
        return true;
    }
    if !same_text(a.session_id.as_str(), b.session_id.as_str()) {
        return false;
    }
    a.origin == HistoryOrigin::Live && b.origin == HistoryOrigin::Remote
}

/// `out` is `rows` stably sorted into history order: some reordering `perm`
/// of the positions puts every row before the ones it sorts before, and
/// keeps tied rows in the order they came in.
pub open spec fn stably_sorted(rows: Seq<HistoryCatalogSession>, out: Seq<HistoryCatalogSession>) -> bool {
    exists|perm: Seq<int>| {
        &&& perm.len() == rows.len()
        &&& out.len() == rows.len()
        &&& forall|k: int| 0 <= k < perm.len() ==> 0 <= #[trigger] perm[k] < rows.len()
        &&& forall|a: int, b: int| 0 <= a < b < perm.len() ==> #[trigger] perm[a] != #[trigger] perm[b]
        &&& forall|k: int| 0 <= k < out.len() ==> #[trigger] out[k] == rows[perm[k]]
        &&& forall|a: int, b: int| 0 <= a < b < out.len() ==> {
            ||| row_before(#[trigger] out[a], #[trigger] out[b])
            ||| (row_tied(out[a], out[b]) && perm[a] < perm[b])
        }
    }
}

/// Positions in history order; tied rows keep their positions' order.
pub open spec fn index_before(rows: Seq<HistoryCatalogSession>, i: int, j: int) -> bool {
    row_before(rows[i], rows[j]) || (row_tied(rows[i], rows[j]) && i < j)
}

proof fn lemma_row_order(a: HistoryCatalogSession, b: HistoryCatalogSession, c: HistoryCatalogSession)
    ensures
        row_before(a, b) || row_before(b, a) || row_tied(a, b),
        !(row_before(a, b) && row_before(b, a)),
        !(row_before(a, b) && row_tied(a, b)),
        row_before(a, b) && row_before(b, c) ==> row_before(a, c),
        row_before(a, b) && row_tied(b, c) ==> row_before(a, c),
        row_tied(a, b) && row_before(b, c) ==> row_before(a, c),
{
    lemma_text_lt_total(a.session_id@, b.session_id@);
    lemma_text_lt_irreflexive(a.session_id@);
    if text_lt(a.session_id@, b.session_id@) && text_lt(b.session_id@, c.session_id@) {
        lemma_text_lt_transitive(a.session_id@, b.session_id@, c.session_id@);
    }
    if a.session_id@ == b.session_id@ && a.origin != b.origin {
        assert(origin_rank(a.origin) != origin_rank(b.origin));
    }
}

/// Sorts rows into history order, keeping tied rows in their given order.
pub fn sort_history_rows(rows: &Vec<HistoryCatalogSession>) -> (out: Vec<HistoryCatalogSession>)
    ensures
        stably_sorted(rows@, out@),
{
    let n = rows.len();
    let mut perm: Vec<usize> = Vec::new();
    let mut i: usize = 0;
    while i < n
        invariant
            n == rows.len(),
            i <= n,
            perm@.len() == i,
            forall|k: int| 0 <= k < perm@.len() ==> #[trigger] perm@[k] < i,
            forall|a: int, b: int| 0 <= a < b < perm@.len() ==> #[trigger] perm@[a] != #[trigger] perm@[b],
            forall|a: int, b: int| 0 <= a < b < perm@.len()
                ==> index_before(rows@, #[trigger] perm@[a] as int, #[trigger] perm@[b] as int),
        decreases n - i,
    {
        let mut j: usize = 0;
        while j < perm.len() && !row_is_before(&rows[i], &rows[perm[j]])
            invariant
                n == rows.len(),
                i < n,
                j <= perm.len(),
                forall|k: int| 0 <= k < perm@.len() ==> #[trigger] perm@[k] < i,
                forall|k: int| 0 <= k < j ==> !row_before(rows@[i as int], rows@[#[trigger] perm@[k] as int]),
            decreases perm.len() - j,
        {
            j = j + 1;
        }
        let ghost before = perm@;
        proof {
            assert forall|k: int| 0 <= k < j implies index_before(rows@, #[trigger] before[k] as int, i as int) by {
                lemma_row_order(rows@[before[k] as int], rows@[i as int], rows@[i as int]);
            }
            if j < before.len() {
                assert forall|k: int| j <= k < before.len() implies row_before(rows@[i as int], rows@[#[trigger] before[k] as int]) by {
                    if k > j {
                        lemma_row_order(rows@[i as int], rows@[before[j as int] as int], rows@[before[k] as int]);
                    }
                }
            }
        }
        perm.insert(j, i);
        proof {
            assert(perm@ == before.insert(j as int, i));
            assert forall|a: int, b: int| 0 <= a < b < perm@.len()
                implies index_before(rows@, #[trigger] perm@[a] as int, #[trigger] perm@[b] as int) by {
                if b < j {
                } else if a < j && b == j {
                } else if a < j {
                    assert(index_before(rows@, before[a] as int, before[b - 1] as int));
                } else if a == j {
                } else {
                    assert(index_before(rows@, before[a - 1] as int, before[b - 1] as int));
                }
            }
            assert forall|a: int, b: int| 0 <= a < b < perm@.len() implies #[trigger] perm@[a] != #[trigger] perm@[b] by {
                if a < j && b > j {
                    assert(before[a] != before[b - 1]);
                } else if a > j {
                    assert(before[a - 1] != before[b - 1]);
                }
            }
        }
        i = i + 1;
    }
    let mut out: Vec<HistoryCatalogSession> = Vec::new();
    let mut k: usize = 0;
    while k < n
        invariant
            n == rows.len(),
            perm@.len() == n,
            k <= n,
            forall|m: int| 0 <= m < perm@.len() ==> #[trigger] perm@[m] < n,
            out@.len() == k,
            forall|m: int| 0 <= m < k ==> #[trigger] out@[m] == rows@[perm@[m] as int],
        decreases n - k,
    {
        out.push(rows[perm[k]].duplicate());
        k = k + 1;
    }
    proof {
        let witness = perm@.map_values(|v: usize| v as int);
        assert forall|a: int, b: int| 0 <= a < b < out@.len() implies {
            ||| row_before(#[trigger] out@[a], #[trigger] out@[b])
            ||| (row_tied(out@[a], out@[b]) && witness[a] < witness[b])
        } by {
            assert(index_before(rows@, perm@[a] as int, perm@[b] as int));
        }
        assert forall|a: int, b: int| 0 <= a < b < witness.len() implies #[trigger] witness[a] != #[trigger] witness[b] by {
            assert(perm@[a] != perm@[b]);
        }
        assert forall|m: int| 0 <= m < out@.len() implies #[trigger] out@[m] == rows@[witness[m]] by {}
        assert forall|m: int| 0 <= m < witness.len() implies 0 <= #[trigger] witness[m] < rows@.len() by {
            assert(perm@[m] < n);
        }
    }
    out
}

/// The rows the three sources give, in source order: finished live
/// transcripts, then recoverable recordings, then remote transcriptions.
pub open spec fn catalog_rows(
    live: Seq<SavedLiveSession>,
    recoverable: Seq<RecoverableLiveSession>,
    remote: Seq<CompletedRemoteTranscript>,
    rows: Seq<HistoryCatalogSession>,
) -> bool {
    &&& rows.len() == live.len() + recoverable.len() + remote.len()
    &&& forall|k: int| 0 <= k < live.len() ==> #[trigger] rows[k] == live_row(live[k])
    &&& forall|k: int| 0 <= k < recoverable.len() ==> #[trigger] recoverable_row_ok(recoverable[k], rows[live.len() + k])
    &&& forall|k: int| 0 <= k < remote.len() ==> #[trigger] rows[live.len() + recoverable.len() + k] == remote_row(remote[k])
}

/// `sessions` are the rows of the three sources, stably sorted into history
/// order.
pub open spec fn collected_from(
    live: Seq<SavedLiveSession>,
    recoverable: Seq<RecoverableLiveSession>,
    remote: Seq<CompletedRemoteTranscript>,
    sessions: Seq<HistoryCatalogSession>,
) -> bool {
    exists|rows: Seq<HistoryCatalogSession>| catalog_rows(live, recoverable, remote, rows) && stably_sorted(rows, sessions)
}

/// The texts of `ws`, each kept only where it first occurs.
pub open spec fn first_occurrences(ws: Seq<Seq<char>>) -> Seq<Seq<char>>
    decreases ws.len(),
{
    if ws.len() == 0 {
        Seq::empty()
    } else {
        let rest = first_occurrences(ws.drop_last());
        if ws.drop_last().contains(ws.last()) { rest } else { rest.push(ws.last()) }
    }
}

/// The texts of a list of strings.
pub open spec fn texts(ws: Seq<String>) -> Seq<Seq<char>> {
    ws.map_values(|w: String| w@)
}

fn dedup_warnings(warnings: Vec<String>) -> (out: Vec<String>)
    ensures
        texts(out@) == first_occurrences(texts(warnings@)),
{
    let ghost all = texts(warnings@);
    let mut out: Vec<String> = Vec::new();
    let mut i: usize = 0;
    while i < warnings.len()
        invariant
            i <= warnings.len(),
            all == texts(warnings@),
            texts(out@) == first_occurrences(all.take(i as int)),
            forall|t: Seq<char>| texts(out@).contains(t) <==> all.take(i as int).contains(t),
        decreases warnings.len() - i,
    {
        let w = &warnings[i];
        let mut found = false;
        let mut k: usize = 0;
        while k < out.len()
            invariant
                k <= out.len(),
                found == exists|m: int| 0 <= m < k && (#[trigger] out@[m])@ == w@,
            decreases out.len() - k,
        {
            if same_text(out[k].as_str(), w.as_str()) {
                found = true;
            }
            k = k + 1;
        }
        let ghost prev = out@;
        proof {
            assert(forall|t: Seq<char>| texts(prev).contains(t) <==> all.take(i as int).contains(t));
            assert(all.take(i + 1).drop_last() == all.take(i as int));
            assert(all.take(i + 1).last() == w@);
            if found {
                let m = choose|m: int| 0 <= m < out@.len() && (#[trigger] out@[m])@ == w@;
                assert(texts(out@)[m] == w@);
            } else {
                assert forall|m: int| 0 <= m < texts(out@).len() implies texts(out@)[m] != w@ by {
                    assert(out@[m]@ == texts(out@)[m]);
                }
            }
        }
        proof {
            assert(found == texts(prev).contains(w@));
            assert(found == all.take(i as int).contains(w@));
            assert(first_occurrences(all.take(i + 1)) == if all.take(i as int).contains(w@) {
                first_occurrences(all.take(i as int))
            } else {
                first_occurrences(all.take(i as int)).push(w@)
            });
        }
        if !found {
            out.push(w.clone());
            proof {
                assert(texts(out@) == texts(prev).push(w@));
            }
        }
        proof {
            assert forall|t: Seq<char>| texts(out@).contains(t) <==> all.take(i + 1).contains(t) by {
                if all.take(i + 1).contains(t) {
                    let m = choose|m: int| 0 <= m < all.take(i + 1).len() && #[trigger] all.take(i + 1)[m] == t;
                    if m < i {
                        assert(all.take(i as int)[m] == t);
                        assert(texts(prev).contains(t));
                        let q = choose|q: int| 0 <= q < texts(prev).len() && #[trigger] texts(prev)[q] == t;
                        assert(texts(out@)[q] == t);
                    } else if !found {
                        assert(texts(out@)[texts(out@).len() - 1] == t);
                    } else {
                        let q = choose|q: int| 0 <= q < out@.len() && (#[trigger] out@[q])@ == w@;
                        assert(texts(out@)[q] == t);
                    }
                }
                if texts(out@).contains(t) {
                    let q = choose|q: int| 0 <= q < texts(out@).len() && #[trigger] texts(out@)[q] == t;
                    if q < texts(prev).len() {
                        assert(texts(prev)[q] == t);
                        assert(texts(prev).contains(t));
                        assert(all.take(i as int).contains(t));
                        let m = choose|m: int| 0 <= m < all.take(i as int).len() && #[trigger] all.take(i as int)[m] == t;
                        assert(all.take(i + 1)[m] == t);
                    } else {
                        assert(all.take(i + 1)[i as int] == t);
                    }
                }
            }
        }
        i = i + 1;
    }
    proof {
        assert(all.take(warnings@.len() as int) == all);
    }
    out
}

fn recoverable_row(s: RecoverableLiveSession) -> (row: HistoryCatalogSession)
    ensures
        recoverable_row_ok(s, row),
{
    let path = match &s.audio_partial_path {
        Some(p) => p.clone(),
        None => match &s.journal_partial_path {
            Some(p) => p.clone(),
            None => s.name.clone(),
        },
    };
    let created_at_ms = s.expires_at_ms.saturating_sub(RECOVERY_WINDOW_MS);
    let source_path = path.clone();
    HistoryCatalogSession {
        capture_commit_path: None,
        created_at_ms,
        name: s.name,
        origin: HistoryOrigin::Live,
        output_path: path,
        recovery_state: Some(String::from_str("recoverable")),
        session_id: s.session_id,
        source_path,
        warning: Some(s.reason),
    }
}

/// Collects the history from its three sources: every row once, newest
/// first, and each maintenance warning once, in the order first reported.
pub fn collect_history_catalog(
    live: SavedLiveSessionCatalog,
    recoverable: Vec<RecoverableLiveSession>,
    remote: CompletedRemoteTranscriptCatalog,
) -> (catalog: HistoryCatalog)
    ensures
        collected_from(live.sessions@, recoverable@, remote.sessions@, catalog.sessions@),
        texts(catalog.maintenance_warnings@)
            == first_occurrences(texts(live.maintenance_warnings@) + texts(remote.maintenance_warnings@)),
{
    let ghost live_param = live;
    let ghost remote_param = remote;
    let ghost recoverable_param = recoverable;
    let ghost live_in = live.sessions@;
    let ghost recoverable_in = recoverable@;
    let ghost remote_in = remote.sessions@;
    let SavedLiveSessionCatalog { sessions: mut live_sessions, maintenance_warnings: mut warnings } = live;
    let CompletedRemoteTranscriptCatalog { sessions: mut remote_sessions, maintenance_warnings: mut remote_warnings } = remote;
    let mut pending = recoverable;
    let mut rows: Vec<HistoryCatalogSession> = Vec::new();
    let ghost mut taken: int = 0;
    while live_sessions.len() > 0
        invariant
            0 <= taken <= live_in.len(),
            live_sessions@ == live_in.subrange(taken, live_in.len() as int),
            rows@.len() == taken,
            forall|k: int| 0 <= k < taken ==> #[trigger] rows@[k] == live_row(live_in[k]),
        decreases live_sessions.len(),
    {
        let session = live_sessions.remove(0);
        proof {
            assert(session == live_in[taken]);
        }
        rows.push(HistoryCatalogSession {
            capture_commit_path: session.capture_commit_path,
            created_at_ms: session.created_at_ms,
            name: session.name,
            origin: HistoryOrigin::Live,
            output_path: session.output_path,
            recovery_state: session.recovery_state,
            session_id: session.session_id,
            source_path: session.source_path,
            warning: session.warning,
        });
        proof {
            taken = taken + 1;
            assert(live_sessions@ =~= live_in.subrange(taken, live_in.len() as int));
        }
    }
    let ghost base = live_in.len() as int;
    proof {
        taken = 0;
    }
    while pending.len() > 0
        invariant
            base == live_in.len(),
            0 <= taken <= recoverable_in.len(),
            pending@ == recoverable_in.subrange(taken, recoverable_in.len() as int),
            rows@.len() == base + taken,
            forall|k: int| 0 <= k < base ==> #[trigger] rows@[k] == live_row(live_in[k]),
            forall|k: int| 0 <= k < taken ==> #[trigger] recoverable_row_ok(recoverable_in[k], rows@[base + k]),
        decreases pending.len(),
    {
        let session = pending.remove(0);
        proof {
            assert(session == recoverable_in[taken]);
        }
        rows.push(recoverable_row(session));
        proof {
            taken = taken + 1;
            assert(pending@ =~= recoverable_in.subrange(taken, recoverable_in.len() as int));
        }
    }
    let ghost base2 = base + recoverable_in.len();
    proof {
        taken = 0;
    }
    while remote_sessions.len() > 0
        invariant
            base == live_in.len(),
            base2 == base + recoverable_in.len(),
            0 <= taken <= remote_in.len(),
            remote_sessions@ == remote_in.subrange(taken, remote_in.len() as int),
            rows@.len() == base2 + taken,
            forall|k: int| 0 <= k < base ==> #[trigger] rows@[k] == live_row(live_in[k]),
            forall|k: int| 0 <= k < recoverable_in.len() ==> #[trigger] recoverable_row_ok(recoverable_in[k], rows@[base + k]),
            forall|k: int| 0 <= k < taken ==> #[trigger] rows@[base2 + k] == remote_row(remote_in[k]),
        decreases remote_sessions.len(),
    {
        let session = remote_sessions.remove(0);
        proof {
            assert(session == remote_in[taken]);
        }
        rows.push(HistoryCatalogSession {
            capture_commit_path: None,
            created_at_ms: session.created_at_ms,
            name: session.name,
            origin: HistoryOrigin::Remote,
            output_path: session.output_path,
            recovery_state: None,
            session_id: session.session_id,
            source_path: session.source_path,
            warning: session.warning,
        });
        proof {
            taken = taken + 1;
            assert(remote_sessions@ =~= remote_in.subrange(taken, remote_in.len() as int));
        }
    }
    proof {
        assert(catalog_rows(live_in, recoverable_in, remote_in, rows@));
    }
    let sessions = sort_history_rows(&rows);
    let ghost live_warnings = texts(warnings@);
    let ghost remote_warning_texts = texts(remote_warnings@);
    warnings.append(&mut remote_warnings);
    proof {
        assert(texts(warnings@) =~= live_warnings + remote_warning_texts);
    }
    let maintenance_warnings = dedup_warnings(warnings);
    proof {
        assert(catalog_rows(live_in, recoverable_in, remote_in, rows@) && stably_sorted(rows@, sessions@));
        assert(live_in == live_param.sessions@);
        assert(collected_from(live_param.sessions@, recoverable_param@, remote_param.sessions@, sessions@));
    }
    HistoryCatalog { maintenance_warnings, sessions }
}

/// Whether a hidden identity names this row.
pub open spec fn is_hidden(hidden: Seq<NativeHistoryIdentity>, row: HistoryCatalogSession) -> bool {
    exists|k: int| 0 <= k < hidden.len() && same_identity(#[trigger] hidden[k], identity_of(row))
}

/// The rows not hidden, in order.
pub open spec fn visible_rows(rows: Seq<HistoryCatalogSession>, hidden: Seq<NativeHistoryIdentity>) -> Seq<HistoryCatalogSession>
    decreases rows.len(),
{
    if rows.len() == 0 {
        Seq::empty()
    } else {
        let rest = visible_rows(rows.drop_last(), hidden);
        if is_hidden(hidden, rows.last()) { rest } else { rest.push(rows.last()) }
    }
}

fn hidden_contains(hidden: &Vec<NativeHistoryIdentity>, row: &HistoryCatalogSession) -> (r: bool)
    ensures
        r == is_hidden(hidden@, *row),
{
    let mut k: usize = 0;
    while k < hidden.len()
        invariant
            k <= hidden.len(),
            forall|m: int| 0 <= m < k ==> !same_identity(#[trigger] hidden@[m], identity_of(*row)),
        decreases hidden.len() - k,
    {
        let h = &hidden[k];
        if h.origin == row.origin && same_text(h.session_id.as_str(), row.session_id.as_str())
            && same_text(h.output_path.as_str(), row.output_path.as_str()) {
            return true;
        }
        k = k + 1;
    }
    false
}

/// Shows the history: hidden rows removed first, then at most
/// `MAX_HISTORY_SESSIONS` of the rest, newest first as collected.
pub fn project_history_catalog(catalog: HistoryCatalog, hidden: &Vec<NativeHistoryIdentity>) -> (visible: HistoryCatalog)
    ensures
        visible.sessions@ == visible_rows(catalog.sessions@, hidden@).take(
            if visible_rows(catalog.sessions@, hidden@).len() < MAX_HISTORY_SESSIONS {
                visible_rows(catalog.sessions@, hidden@).len() as int
            } else {
                MAX_HISTORY_SESSIONS as int
            },
        ),
        visible.maintenance_warnings == catalog.maintenance_warnings,
{
    let HistoryCatalog { maintenance_warnings, sessions } = catalog;
    let ghost all = sessions@;
    let mut remaining = sessions;
    let mut kept: Vec<HistoryCatalogSession> = Vec::new();
    let ghost mut taken: int = 0;
    while remaining.len() > 0
        invariant
            0 <= taken <= all.len(),
            remaining@ == all.subrange(taken, all.len() as int),
            kept@ == visible_rows(all.take(taken), hidden@),
        decreases remaining.len(),
    {
        let row = remaining.remove(0);
        proof {
            assert(row == all[taken]);
            assert(all.take(taken + 1).drop_last() == all.take(taken));
            assert(all.take(taken + 1).last() == row);
        }
        if !hidden_contains(hidden, &row) {
            kept.push(row);
        }
        proof {
            taken = taken + 1;
            assert(remaining@ =~= all.subrange(taken, all.len() as int));
        }
    }
    proof {
        assert(all.take(taken) == all);
    }
    kept.truncate(MAX_HISTORY_SESSIONS);
    HistoryCatalog { maintenance_warnings, sessions: kept }
}

/// The current row whose identity is exactly `requested`, if any.
pub open spec fn current_identity_index(rows: Seq<HistoryCatalogSession>, requested: NativeHistoryIdentity) -> Option<int> {
    crate::journal::first_index_from(0, rows.len() as int, |k: int| same_identity(identity_of(rows[k]), requested))
}

/// Resolves a client's identity to a current row's identity: only an exact
/// match of origin, session and output path is current.
pub fn resolve_current_native_identity(catalog: &HistoryCatalog, requested: &NativeHistoryIdentity) -> (r: Option<NativeHistoryIdentity>)
    ensures
        match current_identity_index(catalog.sessions@, *requested) {
            Some(i) => r == Some(identity_of(catalog.sessions@[i])),
            None => r is None,
        },
{
    let ghost p = |k: int| same_identity(identity_of(catalog.sessions@[k]), *requested);
    proof {
        crate::journal::lemma_first_index_from(0, catalog.sessions@.len() as int, p);
    }
    let mut k: usize = 0;
    while k < catalog.sessions.len()
        invariant
            k <= catalog.sessions.len(),
            p == (|k: int| same_identity(identity_of(catalog.sessions@[k]), *requested)),
            crate::journal::first_index_from(0, catalog.sessions@.len() as int, p)
                == crate::journal::first_index_from(k as int, catalog.sessions@.len() as int, p),
        decreases catalog.sessions.len() - k,
    {
        let row = &catalog.sessions[k];
        if row.origin == requested.origin && same_text(row.session_id.as_str(), requested.session_id.as_str())
            && same_text(row.output_path.as_str(), requested.output_path.as_str()) {
            return Some(row.identity());
        }
        k = k + 1;
    }
    None
}

/// An identity a client may send: a session identifier of 1 to 128 ASCII
/// letters, digits, `_` or `-`, and a nonempty output path of at most
/// `MAX_HISTORY_PATH_CHARS` characters without NUL.
pub open spec fn native_identity_valid(identity: NativeHistoryIdentity) -> bool {
    &&& crate::session::valid_opaque_id(identity.session_id@, 128)
    &&& identity.output_path@.len() > 0
    &&& identity.output_path@.len() <= MAX_HISTORY_PATH_CHARS
    &&& forall|i: int| 0 <= i < identity.output_path@.len() ==> #[trigger] identity.output_path@[i] != '\0'
}

pub fn valid_native_identity(identity: &NativeHistoryIdentity) -> (r: bool)
    ensures
        r == native_identity_valid(*identity),
{
    if crate::session::validate_opaque_id(identity.session_id.as_str(), 128, "history session ID").is_err() {
        return false;
    }
    let path = chars_of(identity.output_path.as_str());
    if path.len() == 0 || path.len() > MAX_HISTORY_PATH_CHARS {
        return false;
    }
    let mut i: usize = 0;
    while i < path.len()
        invariant
            path@ == identity.output_path@,
            i <= path.len(),
            forall|k: int| 0 <= k < i ==> #[trigger] path@[k] != '\0',
        decreases path.len() - i,
    {
        if path[i] == '\0' {
            return false;
        }
        i = i + 1;
    }
    true
}

/// The text in lower case, as `str::to_lowercase` (Unicode) gives it.
pub uninterp spec fn unicode_lowercase(text: Seq<char>) -> Seq<char>;

/// `str::to_lowercase` from the standard library; the contract claims only
/// that the result depends on the text alone.
#[verifier::external_body]
fn lowercase_text(text: &str) -> (r: String)
    ensures
        r@ == unicode_lowercase(text@),
{
    text.to_lowercase()
}

/// Whether `p` starts with `prefix`.
pub open spec fn starts_with(p: Seq<char>, prefix: Seq<char>) -> bool {
    p.len() >= prefix.len() && p.subrange(0, prefix.len() as int) == prefix
}

/// A path written the Windows way: a drive letter (an ASCII character
/// followed by `:`), or a leading `\\\\` or `//`.
pub open spec fn is_windows_path(p: Seq<char>) -> bool {
    ||| (p.len() >= 2 && p[0] <= '\x7f' && p[1] == ':')
    ||| starts_with(p, seq!['\\', '\\'])
    ||| starts_with(p, seq!['/', '/'])
}

/// Forward slashes turned into backslashes.
pub open spec fn backslashed(p: Seq<char>) -> Seq<char> {
    p.map_values(|c: char| if c == '/' { '\\' } else { c })
}

/// Whether `n` starts with `\\?\UNC\`, the letters in either case.
pub open spec fn has_verbatim_unc_prefix(n: Seq<char>) -> bool {
    &&& n.len() >= 8
    &&& n[0] == '\\' && n[1] == '\\' && n[2] == '?' && n[3] == '\\'
    &&& (n[4] == 'U' || n[4] == 'u') && (n[5] == 'N' || n[5] == 'n') && (n[6] == 'C' || n[6] == 'c')
    &&& n[7] == '\\'
}

/// Whether `n` starts with `\\?\`.
pub open spec fn has_verbatim_prefix(n: Seq<char>) -> bool {
    n.len() >= 4 && n[0] == '\\' && n[1] == '\\' && n[2] == '?' && n[3] == '\\'
}

/// A backslashed path without its verbatim prefix.
pub open spec fn without_verbatim(n: Seq<char>) -> Seq<char> {
    if has_verbatim_unc_prefix(n) {
        seq!['\\', '\\'] + n.skip(8)
    } else if has_verbatim_prefix(n) {
        n.skip(4)
    } else {
        n
    }
}

/// One path segment applied to the segments resolved so far: empty
/// segments and `.` are skipped, `..` removes the last segment above the
/// root, anything else is appended.
pub open spec fn resolve_step(resolved: Seq<Seq<char>>, segment: Seq<char>, root_depth: int) -> Seq<Seq<char>> {
    if segment.len() == 0 || segment == seq!['.'] {
        resolved
    } else if segment == seq!['.', '.'] {
        if resolved.len() > root_depth { resolved.drop_last() } else { resolved }
    } else {
        resolved.push(segment)
    }
}

pub open spec fn resolve_segments(segments: Seq<Seq<char>>, root_depth: int) -> Seq<Seq<char>>
    decreases segments.len(),
{
    if segments.len() == 0 {
        Seq::empty()
    } else {
        resolve_step(resolve_segments(segments.drop_last(), root_depth), segments.last(), root_depth)
    }
}

/// Segments joined with backslashes.
pub open spec fn join_segments(parts: Seq<Seq<char>>) -> Seq<char>
    decreases parts.len(),
{
    if parts.len() == 0 {
        Seq::empty()
    } else if parts.len() == 1 {
        parts[0]
    } else {
        join_segments(parts.drop_last()) + seq!['\\'] + parts.last()
    }
}

/// The identity under which two paths name the same transcript: a Windows
/// path is backslashed, loses a verbatim prefix, has `.` and `..` segments
/// resolved (never above its root) and is lower-cased; other paths are
/// compared as written.
pub open spec fn path_identity(p: Seq<char>) -> Seq<char> {
    if !is_windows_path(p) {
        p
    } else {
        let n = without_verbatim(backslashed(p));
        let unc = starts_with(n, seq!['\\', '\\']);
        let resolved = resolve_segments(split_on(n, '\\'), if unc { 2 } else { 1 });
        unicode_lowercase((if unc { seq!['\\', '\\'] } else { Seq::empty() }) + join_segments(resolved))
    }
}

fn chars_eq_literal(v: &Vec<char>, at: usize, lit: &Vec<char>) -> (r: bool)
    ensures
        r == (at + lit@.len() <= v@.len() && v@.subrange(at as int, at + lit@.len()) == lit@),
{
    if at > v.len() || v.len() - at < lit.len() {
        return false;
    }
    let mut i: usize = 0;
    while i < lit.len()
        invariant
            at + lit.len() <= v.len(),
            i <= lit.len(),
            forall|k: int| 0 <= k < i ==> v@[at + k] == lit@[k],
        decreases lit.len() - i,
    {
        if v[at + i] != lit[i] {
            proof {
                assert(v@.subrange(at as int, at + lit@.len())[i as int] != lit@[i as int]);
            }
            return false;
        }
        i = i + 1;
    }
    proof {
        assert(v@.subrange(at as int, at + lit@.len()) =~= lit@);
    }
    true
}

/// Computes a path's identity.
pub fn history_path_identity(path: &str) -> (r: String)
    ensures
        r@ == path_identity(path@),
{
    let p = chars_of(path);
    let double_backslash = chars_of("\\\\");
    let double_slash = chars_of("//");
    proof {
        reveal_strlit("\\\\");
        reveal_strlit("//");
        assert(double_backslash@ =~= seq!['\\', '\\']);
        assert(double_slash@ =~= seq!['/', '/']);
    }
    let windows = (p.len() >= 2 && p[0] <= '\x7f' && p[1] == ':')
        || chars_eq_literal(&p, 0, &double_backslash)
        || chars_eq_literal(&p, 0, &double_slash);
    if !windows {
        return String::from_str(path);
    }
    let mut n: Vec<char> = Vec::new();
    let mut i: usize = 0;
    while i < p.len()
        invariant
            i <= p.len(),
            n@ == backslashed(p@).take(i as int),
        decreases p.len() - i,
    {
        n.push(if p[i] == '/' { '\\' } else { p[i] });
        proof {
            assert(backslashed(p@).take(i + 1) == backslashed(p@).take(i as int).push(backslashed(p@)[i as int]));
        }
        i = i + 1;
    }
    proof {
        assert(backslashed(p@).take(p@.len() as int) == backslashed(p@));
    }
    let verbatim_unc = n.len() >= 8 && n[0] == '\\' && n[1] == '\\' && n[2] == '?' && n[3] == '\\'
        && (n[4] == 'U' || n[4] == 'u') && (n[5] == 'N' || n[5] == 'n') && (n[6] == 'C' || n[6] == 'c')
        && n[7] == '\\';
    let verbatim = n.len() >= 4 && n[0] == '\\' && n[1] == '\\' && n[2] == '?' && n[3] == '\\';
    let stripped: Vec<char> = if verbatim_unc {
        let mut s: Vec<char> = Vec::new();
        s.push('\\');
        s.push('\\');
        let mut k: usize = 8;
        while k < n.len()
            invariant
                8 <= k <= n.len(),
                s@ == seq!['\\', '\\'] + n@.subrange(8, k as int),
            decreases n.len() - k,
        {
            s.push(n[k]);
            proof {
                assert(n@.subrange(8, k + 1) == n@.subrange(8, k as int).push(n@[k as int]));
            }
            k = k + 1;
        }
        s
    } else if verbatim {
        crate::text::sub_chars(&n, 4, n.len())
    } else {
        n
    };
    proof {
        assert(stripped@ =~= without_verbatim(backslashed(p@)));
    }
    let unc = chars_eq_literal(&stripped, 0, &double_backslash);
    let root_depth: usize = if unc { 2 } else { 1 };
    let segments = split_chars(&stripped, '\\');
    let ghost all = split_on(stripped@, '\\');
    let mut resolved: Vec<Vec<char>> = Vec::new();
    let mut k: usize = 0;
    while k < segments.len()
        invariant
            k <= segments.len(),
            char_vecs_match(segments@, all),
            resolved@.len() == resolve_segments(all.take(k as int), root_depth as int).len(),
            forall|m: int| 0 <= m < resolved@.len() ==> (#[trigger] resolved@[m])@ == resolve_segments(all.take(k as int), root_depth as int)[m],
        decreases segments.len() - k,
    {
        let segment = &segments[k];
        let ghost prev = resolve_segments(all.take(k as int), root_depth as int);
        proof {
            assert(all.take(k + 1).drop_last() == all.take(k as int));
            assert(all.take(k + 1).last() == segment@);
        }
        let is_dot = segment.len() == 1 && segment[0] == '.';
        let is_dot_dot = segment.len() == 2 && segment[0] == '.' && segment[1] == '.';
        proof {
            if is_dot {
                assert(segment@ =~= seq!['.']);
            }
            if segment@ == seq!['.'] {
                assert(is_dot);
            }
            if is_dot_dot {
                assert(segment@ =~= seq!['.', '.']);
            }
            if segment@ == seq!['.', '.'] {
                assert(is_dot_dot);
            }
        }
        if segment.len() == 0 || is_dot {
        } else if is_dot_dot {
            if resolved.len() > root_depth {
                resolved.pop();
            }
        } else {
            resolved.push(crate::text::sub_chars(segment, 0, segment.len()));
            proof {
                assert(segment@.subrange(0, segment@.len() as int) == segment@);
            }
        }
        k = k + 1;
    }
    proof {
        assert(all.take(segments@.len() as int) == all);
    }
    let ghost parts = resolve_segments(all, root_depth as int);
    let mut joined: Vec<char> = Vec::new();
    if unc {
        joined.push('\\');
        joined.push('\\');
    }
    let ghost lead: Seq<char> = if unc { seq!['\\', '\\'] } else { Seq::empty() };
    proof {
        assert(joined@ =~= lead + join_segments(parts.take(0)));
    }
    let mut m: usize = 0;
    while m < resolved.len()
        invariant
            m <= resolved.len(),
            resolved@.len() == parts.len(),
            forall|q: int| 0 <= q < resolved@.len() ==> (#[trigger] resolved@[q])@ == parts[q],
            joined@ == lead + join_segments(parts.take(m as int)),
        decreases resolved.len() - m,
    {
        let ghost before = joined@;
        if m > 0 {
            joined.push('\\');
        }
        let part = &resolved[m];
        let mut c: usize = 0;
        while c < part.len()
            invariant
                c <= part.len(),
                joined@ == (if m > 0 { before.push('\\') } else { before }) + part@.take(c as int),
            decreases part.len() - c,
        {
            joined.push(part[c]);
            proof {
                assert(part@.take(c + 1) == part@.take(c as int).push(part@[c as int]));
            }
            c = c + 1;
        }
        proof {
            assert(part@.take(part@.len() as int) == part@);
            assert(parts.take(m + 1).drop_last() == parts.take(m as int));
            assert(parts.take(m + 1).last() == parts[m as int]);
            if m == 0 {
                assert(parts.take(1).len() == 1);
                assert(join_segments(parts.take(1)) == parts[0]);
                assert(joined@ =~= lead + join_segments(parts.take(1)));
            } else {
                assert(joined@ =~= lead + join_segments(parts.take(m + 1)));
            }
        }
        m = m + 1;
    }
    proof {
        assert(parts.take(parts.len() as int) == parts);
    }
    let text = string_from_chars(joined.as_slice());
    lowercase_text(text.as_str())
}

/// What a migration has produced so far: the identities to hide, the paths
/// that named at least one new row, and the path identities already asked.
pub struct MigrationState {
    pub identities: Seq<NativeHistoryIdentity>,
    pub migrated: Seq<Seq<char>>,
    pub asked: Seq<Seq<char>>,
}

/// Whether an identity is already chosen (by text).
pub open spec fn identity_chosen(ids: Seq<NativeHistoryIdentity>, id: NativeHistoryIdentity) -> bool {
    exists|k: int| 0 <= k < ids.len() && same_identity(#[trigger] ids[k], id)
}

/// The identities after adding, in row order, every not yet chosen row whose
/// output path has identity `requested`.
pub open spec fn add_matching(ids: Seq<NativeHistoryIdentity>, rows: Seq<HistoryCatalogSession>, requested: Seq<char>) -> Seq<NativeHistoryIdentity>
    decreases rows.len(),
{
    if rows.len() == 0 {
        ids
    } else {
        let before = add_matching(ids, rows.drop_last(), requested);
        let row = rows.last();
        if path_identity(row.output_path@) == requested && !identity_chosen(before, identity_of(row)) {
            before.push(identity_of(row))
        } else {
            before
        }
    }
}

/// One requested path applied to the migration: too long or empty paths and
/// repeated path identities are skipped; otherwise the rows it names are
/// added, and the path counts as migrated when it added any.
pub open spec fn migration_step(rows: Seq<HistoryCatalogSession>, state: MigrationState, path: Seq<char>) -> MigrationState {
    if path.len() == 0 || path.len() > MAX_HISTORY_PATH_CHARS {
        state
    } else if state.asked.contains(path_identity(path)) {
        state
    } else {
        let ids = add_matching(state.identities, rows, path_identity(path));
        MigrationState {
            identities: ids,
            migrated: if ids.len() > state.identities.len() { state.migrated.push(path) } else { state.migrated },
            asked: state.asked.push(path_identity(path)),
        }
    }
}

pub open spec fn migration_of(rows: Seq<HistoryCatalogSession>, paths: Seq<Seq<char>>) -> MigrationState
    decreases paths.len(),
{
    if paths.len() == 0 {
        MigrationState { identities: Seq::empty(), migrated: Seq::empty(), asked: Seq::empty() }
    } else {
        migration_step(rows, migration_of(rows, paths.drop_last()), paths.last())
    }
}

fn chosen(ids: &Vec<NativeHistoryIdentity>, id: &NativeHistoryIdentity) -> (r: bool)
    ensures
        r == identity_chosen(ids@, *id),
{
    let mut k: usize = 0;
    while k < ids.len()
        invariant
            k <= ids.len(),
            forall|m: int| 0 <= m < k ==> !same_identity(#[trigger] ids@[m], *id),
        decreases ids.len() - k,
    {
        let c = &ids[k];
        if c.origin == id.origin && same_text(c.session_id.as_str(), id.session_id.as_str())
            && same_text(c.output_path.as_str(), id.output_path.as_str()) {
            return true;
        }
        k = k + 1;
    }
    false
}

fn asked_before(asked: &Vec<String>, requested: &str) -> (r: bool)
    ensures
        r == texts(asked@).contains(requested@),
{
    let mut k: usize = 0;
    while k < asked.len()
        invariant
            k <= asked.len(),
            forall|m: int| 0 <= m < k ==> (#[trigger] asked@[m])@ != requested@,
        decreases asked.len() - k,
    {
        if same_text(asked[k].as_str(), requested) {
            proof {
                assert(texts(asked@)[k as int] == requested@);
            }
            return true;
        }
        k = k + 1;
    }
    proof {
        assert forall|m: int| 0 <= m < texts(asked@).len() implies texts(asked@)[m] != requested@ by {
            assert(asked@[m]@ == texts(asked@)[m]);
        }
    }
    false
}

/// Chooses which client-remembered hidden paths become hidden identities:
/// each valid path, once per path identity, hides every current row whose
/// output path has that identity, in catalog order; the paths that hid
/// something are reported in the client's order.
pub fn select_hidden_path_migration(catalog: &HistoryCatalog, output_paths: Vec<String>) -> (r: (Vec<NativeHistoryIdentity>, Vec<String>))
    ensures
        r.0@ == migration_of(catalog.sessions@, texts(output_paths@)).identities,
        texts(r.1@) == migration_of(catalog.sessions@, texts(output_paths@)).migrated,
{
    let ghost all = texts(output_paths@);
    let mut identities: Vec<NativeHistoryIdentity> = Vec::new();
    let mut migrated: Vec<String> = Vec::new();
    let mut asked: Vec<String> = Vec::new();
    let rows = &catalog.sessions;
    let mut remaining = output_paths;
    let ghost mut taken: int = 0;
    proof {
        assert(all.subrange(0, all.len() as int) == all);
        assert(texts(remaining@) == all.subrange(0, all.len() as int));
    }
    while remaining.len() > 0
        invariant
            0 <= taken <= all.len(),
            texts(remaining@) == all.subrange(taken, all.len() as int),
            identities@ == migration_of(rows@, all.take(taken)).identities,
            texts(migrated@) == migration_of(rows@, all.take(taken)).migrated,
            texts(asked@) == migration_of(rows@, all.take(taken)).asked,
        decreases remaining.len(),
    {
        let ghost before_remaining = remaining@;
        let path = remaining.remove(0);
        proof {
            assert(texts(before_remaining)[0] == path@);
            assert(texts(before_remaining).len() == before_remaining.len());
            assert(all.subrange(taken, all.len() as int).len() > 0);
            assert(all.subrange(taken, all.len() as int)[0] == all[taken]);
            assert(path@ == all[taken]);
            assert(all.take(taken + 1).drop_last() == all.take(taken));
            assert(all.take(taken + 1).last() == path@);
            assert(texts(remaining@) =~= texts(before_remaining).drop_first());
        }
        let count = chars_of(path.as_str()).len();
        if count != 0 && count <= MAX_HISTORY_PATH_CHARS {
            let requested = history_path_identity(path.as_str());
            if !asked_before(&asked, requested.as_str()) {
                let ghost before_ids = identities@;
                let count_before = identities.len();
                let mut k: usize = 0;
                while k < rows.len()
                    invariant
                        k <= rows.len(),
                        identities@ == add_matching(before_ids, rows@.take(k as int), requested@),
                    decreases rows.len() - k,
                {
                    proof {
                        assert(rows@.take(k + 1).drop_last() == rows@.take(k as int));
                        assert(rows@.take(k + 1).last() == rows@[k as int]);
                    }
                    let row_identity = history_path_identity(rows[k].output_path.as_str());
                    if same_text(row_identity.as_str(), requested.as_str()) {
                        let id = rows[k].identity();
                        if !chosen(&identities, &id) {
                            identities.push(id);
                        }
                    }
                    k = k + 1;
                }
                proof {
                    assert(rows@.take(rows@.len() as int) == rows@);
                }
                let ghost before_migrated = texts(migrated@);
                if identities.len() > count_before {
                    migrated.push(path);
                    proof {
                        assert(texts(migrated@) =~= before_migrated.push(all[taken]));
                    }
                }
                let ghost before_asked = texts(asked@);
                asked.push(requested);
                proof {
                    assert(texts(asked@) =~= before_asked.push(path_identity(all[taken])));
                }
            }
        }
        proof {
            taken = taken + 1;
        }
    }
    proof {
        assert(all.take(taken) == all);
    }
    (identities, migrated)
}

/// The code and message of an identity that names no current row.
pub open spec fn stale_identity_code() -> Seq<char> {
    "HISTORY_IDENTITY_STALE"@
}

pub open spec fn stale_identity_text() -> Seq<char> {
    "History identity is no longer current. Refresh history and try again."@
}

/// The refusal of an identity that is malformed or no longer current.
pub fn stale_history_identity_error() -> (e: CommandError)
    ensures
        e.code@ == stale_identity_code(),
        e.message@ == stale_identity_text(),
{
    CommandError {
        code: String::from_str("HISTORY_IDENTITY_STALE"),
        message: String::from_str("History identity is no longer current. Refresh history and try again."),
    }
}

/// A failure of the visibility store, reported under its own code.
pub fn history_visibility_error(message: String) -> (e: CommandError)
    ensures
        e.code@ == "HISTORY_VISIBILITY_ERROR"@,
        e.message == message,
{
    CommandError { code: String::from_str("HISTORY_VISIBILITY_ERROR"), message }
}

/// A failure to list the history's sources, reported under its own code.
pub fn history_error(message: String) -> (e: CommandError)
    ensures
        e.code@ == "HISTORY_CATALOG_ERROR"@,
        e.message == message,
{
    CommandError { code: String::from_str("HISTORY_CATALOG_ERROR"), message }
}

/// History commands run only from the main window.
pub fn ensure_history_authorized(label: &str) -> (r: Result<(), CommandError>)
    ensures
        r is Ok <==> label@ == MAIN_WINDOW_LABEL@,
        r matches Err(e) ==> e.code@ == "HISTORY_FORBIDDEN"@ && e.message@ == forbidden_text(),
{
    match ensure_main(label) {
        Ok(()) => Ok(()),
        Err(message) => Err(CommandError { code: String::from_str("HISTORY_FORBIDDEN"), message }),
    }
}

/// The identity that hiding a row remembers: the client's identity must be
/// well formed and name a current row exactly; the row's own identity is
/// remembered.
pub fn identity_to_hide(raw: &HistoryCatalog, identity: &NativeHistoryIdentity) -> (r: Result<NativeHistoryIdentity, CommandError>)
    ensures
        !native_identity_valid(*identity) ==> (r matches Err(e) && e.code@ == stale_identity_code()
            && e.message@ == stale_identity_text()),
        native_identity_valid(*identity) ==> match current_identity_index(raw.sessions@, *identity) {
            Some(i) => r == Ok::<NativeHistoryIdentity, CommandError>(identity_of(raw.sessions@[i])),
            None => r matches Err(e) && e.code@ == stale_identity_code() && e.message@ == stale_identity_text(),
        },
{
    if !valid_native_identity(identity) {
        return Err(stale_history_identity_error());
    }
    match resolve_current_native_identity(raw, identity) {
        Some(current) => Ok(current),
        None => Err(stale_history_identity_error()),
    }
}

/// The refusal of a migration of more than `MAX_HISTORY_SESSIONS` paths.
pub open spec fn migration_too_large_text() -> Seq<char> {
    "Hidden history migration accepts at most 500 paths."@
}

/// Whether migrating `path_count` hidden paths needs the history catalog:
/// only for a nonempty list the migration accepts (an empty one migrates
/// nothing, and a longer one is refused).
pub fn migration_needs_catalog(path_count: usize) -> (r: bool)
    ensures
        r == (0 < path_count && path_count <= MAX_HISTORY_SESSIONS),
{
    path_count > 0 && path_count <= MAX_HISTORY_SESSIONS
}

/// Which identities a migration of client-remembered hidden paths hides, and
/// which paths it reports as migrated; a request of more than
/// `MAX_HISTORY_SESSIONS` paths is refused.
pub fn plan_hidden_path_migration(raw: &HistoryCatalog, output_paths: Vec<String>) -> (r: Result<(Vec<NativeHistoryIdentity>, HiddenHistoryMigration), CommandError>)
    ensures
        r is Err <==> output_paths.len() > MAX_HISTORY_SESSIONS,
        r matches Err(e) ==> e.code@ == "HISTORY_MIGRATION_TOO_LARGE"@ && e.message@ == migration_too_large_text(),
        r matches Ok(plan) ==> plan.0@ == migration_of(raw.sessions@, texts(output_paths@)).identities
            && texts(plan.1.migrated_output_paths@) == migration_of(raw.sessions@, texts(output_paths@)).migrated,
{
    if output_paths.len() > MAX_HISTORY_SESSIONS {
        return Err(CommandError {
            code: String::from_str("HISTORY_MIGRATION_TOO_LARGE"),
            message: String::from_str("Hidden history migration accepts at most 500 paths."),
        });
    }
    let (identities, migrated_output_paths) = select_hidden_path_migration(raw, output_paths);
    Ok((identities, HiddenHistoryMigration { migrated_output_paths }))
}

/// The warning added when the hidden identities cannot be read.
pub open spec fn unavailable_visibility_text(error: Seq<char>) -> Seq<char> {
    "Hidden history preferences are unavailable: "@ + error
}

/// Shows the history with the hidden identities the store returned; when the
/// store failed, nothing is hidden and the failure becomes a maintenance
/// warning.
pub fn project_with_visibility(raw: HistoryCatalog, hidden: Result<Vec<NativeHistoryIdentity>, String>) -> (visible: HistoryCatalog)
    ensures
        match hidden {
            Ok(h) => visible.sessions@ == visible_rows(raw.sessions@, h@).take(
                if visible_rows(raw.sessions@, h@).len() < MAX_HISTORY_SESSIONS {
                    visible_rows(raw.sessions@, h@).len() as int
                } else {
                    MAX_HISTORY_SESSIONS as int
                },
            ) && visible.maintenance_warnings == raw.maintenance_warnings,
            Err(e) => visible.sessions@ == raw.sessions@.take(
                if raw.sessions@.len() < MAX_HISTORY_SESSIONS {
                    raw.sessions@.len() as int
                } else {
                    MAX_HISTORY_SESSIONS as int
                },
            ) && texts(visible.maintenance_warnings@) == texts(raw.maintenance_warnings@).push(
                unavailable_visibility_text(e@),
            ),
        },
{
    match hidden {
        Ok(h) => project_history_catalog(raw, &h),
        Err(error) => {
            let mut raw = raw;
            let mut warning = String::from_str("Hidden history preferences are unavailable: ");
            warning.append(error.as_str());
            let ghost before = raw.maintenance_warnings@;
            raw.maintenance_warnings.push(warning);
            proof {
                assert(texts(raw.maintenance_warnings@) =~= texts(before).push(unavailable_visibility_text(error@)));
                lemma_nothing_hidden(raw.sessions@);
            }
            let none: Vec<NativeHistoryIdentity> = Vec::new();
            project_history_catalog(raw, &none)
        }
    }
}

proof fn lemma_nothing_hidden(rows: Seq<HistoryCatalogSession>)
    ensures
        visible_rows(rows, Seq::<NativeHistoryIdentity>::empty()) == rows,
    decreases rows.len(),
{
    if rows.len() > 0 {
        lemma_nothing_hidden(rows.drop_last());
        assert(!is_hidden(Seq::<NativeHistoryIdentity>::empty(), rows.last()));
        assert(rows.drop_last().push(rows.last()) =~= rows);
    }
}

} // verus!
