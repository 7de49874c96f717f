# yap_capture

The capture core of the Yap desktop recorder, written in Verus: the rules by
which a live recording is identified, timed, journaled, published and read
back, with their contracts proved.

## Layout

`src/` is the verified library.

- `session` — session, track and owner identifiers; session metadata; the
  allocation loop that reserves a recording's first artifact.
- `clock`, `frame`, `track` — clock mappings, track configurations, frame
  and gap intervals, and the per-track timeline that accepts them.
- `loss` — the lock-free accounting of frames dropped in capture callbacks.
  Each drain is decided, on the values it loaded, by `drain_step`; the
  protocol laws (invalidation, ring overflow and exhaustion) are proved over
  it, and a drained generation is the exact union of its runs.
- `journal`, `replay`, `durability` — the capture journal, the delta records
  of its append log, their replay, and the proof that a log written by the
  recorder replays to the journal persisted last.
- `stream` — the decisions of a streaming recording: byte accounting, journal
  growth limits, which inputs it takes, and how it finalizes.
- `wav`, `artifacts`, `sidecar`, `capture` — the WAV header, artifact names,
  sidecar and commit validation, and the recovery scan.
- `results` — transcript and speaker result revisions and their chains.
- `history`, `commands`, `vad`, `text` — the history catalog, window and
  command policy, energy-block intervals, and text helpers.

`tests/` exercises the library on concrete values. `app/` holds what the
library leaves to ordinary Rust: file and database I/O (it reads published
files in chunks and hands them to the library's `Sha256Stream`, whose digests
the library's validators then check), JSON wire types, the recording worker thread and its handle, and the
floating-point energy classifier.
