//! Loss accounting between capture callbacks and the timeline coordinator.
//!
//! Callbacks publish dropped runs into one of two slots; the coordinator
//! drains the retired slot and reports the runs as one exact interval, or
//! `InvalidTiming` when they do not tile one.

use vstd::prelude::*;
use vstd::relations::{sorted_by, total_ordering};
use vstd::seq_lib::{lemma_sorted_unique, group_to_multiset_ensures};
use std::sync::atomic::{AtomicBool, AtomicU64, AtomicU8, AtomicUsize, Ordering};
use crate::clock::TimelineError;
use crate::frame::GapCause;

verus! {

/// Runs one slot can hold per generation.
pub const LOSS_RUN_CAPACITY: usize = 64;

/// Registrations that may be outstanding between two drains.
pub const REGISTRATION_TICKET_CAPACITY: usize = 256;

/// The byte an empty cell holds in place of a cause.
pub const NO_CAUSE: u8 = 0;

/// A contiguous interval of dropped source frames, drained as one generation.
#[derive(Debug, Clone, Copy, PartialEq, Eq, Structural)]
pub struct LossSnapshot {
    pub first_source_position_frames: u64,
    pub dropped_frames: u64,
    pub cause: GapCause,
    pub generation: u64,
}

/// Result of a non-blocking drain.
#[derive(Debug, Clone, Copy, PartialEq, Eq, Structural)]
pub enum TryDrain {
    Pending,
    Empty,
    Snapshot(LossSnapshot),
}

/// The byte a cause is stored as; zero means "no cause".
pub open spec fn cause_code(cause: GapCause) -> u8 {
    match cause {
        GapCause::CallbackPoolExhausted => 1,
        GapCause::OversizedCallback => 2,
        GapCause::DeviceDiscontinuity => 3,
        GapCause::SinkUnavailable => 4,
    }
}

/// The cause a stored byte stands for, if any.
pub open spec fn cause_of_code(encoded: u8) -> Option<GapCause> {
    if encoded == 1 {
        Some(GapCause::CallbackPoolExhausted)
    } else if encoded == 2 {
        Some(GapCause::OversizedCallback)
    } else if encoded == 3 {
        Some(GapCause::DeviceDiscontinuity)
    } else if encoded == 4 {
        Some(GapCause::SinkUnavailable)
    } else {
        None
    }
}

/// Stores a cause as a byte.
pub fn encode_cause(cause: GapCause) -> (encoded: u8)
    ensures
        encoded == cause_code(cause),
{
    match cause {
        GapCause::CallbackPoolExhausted => 1,
        GapCause::OversizedCallback => 2,
        GapCause::DeviceDiscontinuity => 3,
        GapCause::SinkUnavailable => 4,
    }
}

/// Reads a stored cause byte back.
pub fn decode_cause(encoded: u8) -> (cause: Option<GapCause>)
    ensures
        cause == cause_of_code(encoded),
{
    match encoded {
        1 => Some(GapCause::CallbackPoolExhausted),
        2 => Some(GapCause::OversizedCallback),
        3 => Some(GapCause::DeviceDiscontinuity),
        4 => Some(GapCause::SinkUnavailable),
        _ => None,
    }
}

/// Every cause is stored as a nonzero byte that decodes back to it.
pub proof fn law_cause_code_round_trip(cause: GapCause)
    ensures
        cause_code(cause) != NO_CAUSE,
        cause_of_code(cause_code(cause)) == Some(cause),
{
}

/// One run as a callback published it.
#[derive(Debug, Clone, Copy, PartialEq, Eq, Structural)]
pub struct RawLossRun {
    pub source_position_frames: u64,
    pub dropped_frames: u64,
    pub cause: u8,
}

/// Runs ordered by source position; ties broken by length, then cause.
pub open spec fn run_leq() -> spec_fn(RawLossRun, RawLossRun) -> bool {
    |a: RawLossRun, b: RawLossRun|
        a.source_position_frames < b.source_position_frames
        || (a.source_position_frames == b.source_position_frames
            && (a.dropped_frames < b.dropped_frames
                || (a.dropped_frames == b.dropped_frames && a.cause <= b.cause)))
}

pub proof fn lemma_run_leq_total()
    ensures
        total_ordering(run_leq()),
{
}

fn run_le(a: &RawLossRun, b: &RawLossRun) -> (r: bool)
    ensures
        r == (run_leq())(*a, *b),
{
    a.source_position_frames < b.source_position_frames
        || (a.source_position_frames == b.source_position_frames
            && (a.dropped_frames < b.dropped_frames
                || (a.dropped_frames == b.dropped_frames && a.cause <= b.cause)))
}

/// Orders runs by source position.
pub fn sort_runs(runs: &Vec<RawLossRun>) -> (sorted: Vec<RawLossRun>)
    ensures
        sorted@ == runs@.sort_by(run_leq()),
{
    broadcast use group_to_multiset_ensures;
    let mut out: Vec<RawLossRun> = Vec::new();
    let n = runs.len();
    let mut i: usize = 0;
    proof {
        lemma_run_leq_total();
    }
    while i < n
        invariant
            n == runs.len(),
            i <= n,
            total_ordering(run_leq()),
            sorted_by(out@, run_leq()),
            out@.to_multiset() == runs@.take(i as int).to_multiset(),
        decreases n - i,
    {
        let x = runs[i];
        let mut j: usize = 0;
        while j < out.len() && run_le(&out[j], &x)
            invariant
                j <= out.len(),
                forall|k: int| 0 <= k < j ==> (run_leq())(#[trigger] out@[k], x),
            decreases out.len() - j,
        {
            j = j + 1;
        }
        let ghost before = out@;
        proof {
            if j < before.len() {
                assert forall|k: int| j <= k < before.len() implies (run_leq())(x, #[trigger] before[k]) by {
                    assert((run_leq())(before[j as int], before[k]) || j == k);
                }
            }
        }
        out.insert(j, x);
        proof {
            assert(out@ == before.insert(j as int, x));
            assert forall|a: int, b: int| 0 <= a < b < out@.len() implies (run_leq())(#[trigger] out@[a], #[trigger] out@[b]) by {
                if b < j {
                } else if a < j && b == j {
                } else if a < j {
                    assert((run_leq())(before[a], before[b - 1]));
                } else if a == j {
                } else {
                    assert((run_leq())(before[a - 1], before[b - 1]));
                }
            }
            assert(runs@.take(i + 1) == runs@.take(i as int).push(x));
            vstd::seq_lib::to_multiset_insert(before, j as int, x);
            vstd::seq_lib::to_multiset_build(runs@.take(i as int), x);
        }
        i = i + 1;
    }
    proof {
        assert(runs@.take(n as int) == runs@);
        runs@.lemma_sort_by_ensures(run_leq());
        lemma_sorted_unique(out@, runs@.sort_by(run_leq()), run_leq());
    }
    out
}

/// Walks runs in order: each must be nonempty, share `cause` and start where
/// the previous one ended, without overflowing. Gives the total dropped.
pub open spec fn chain_total(runs: Seq<RawLossRun>, expected: u64, dropped: u64, cause: u8) -> Option<u64>
    decreases runs.len(),
{
    if runs.len() == 0 {
        Some(dropped)
    } else {
        let run = runs[0];
        if run.dropped_frames == 0 || run.cause != cause || run.source_position_frames != expected {
            None
        } else if run.source_position_frames + run.dropped_frames > u64::MAX
            || dropped + run.dropped_frames > u64::MAX {
            None
        } else {
            chain_total(
                runs.drop_first(),
                (run.source_position_frames + run.dropped_frames) as u64,
                (dropped + run.dropped_frames) as u64,
                cause,
            )
        }
    }
}

/// The snapshot that position-ordered runs stand for.
pub open spec fn sorted_snapshot(sorted: Seq<RawLossRun>, generation: u64) -> Result<Option<LossSnapshot>, TimelineError> {
    if sorted.len() == 0 {
        Ok(None)
    } else {
        let first = sorted[0];
        match cause_of_code(first.cause) {
            None => Err(TimelineError::InvalidTiming),
            Some(cause) => match chain_total(sorted, first.source_position_frames, 0, first.cause) {
                None => Err(TimelineError::InvalidTiming),
                Some(dropped) => Ok(Some(LossSnapshot {
                    first_source_position_frames: first.source_position_frames,
                    dropped_frames: dropped,
                    cause,
                    generation,
                })),
            },
        }
    }
}

/// Reduces position-ordered runs to one snapshot.
pub fn snapshot_of_sorted(sorted: &Vec<RawLossRun>, generation: u64) -> (r: Result<Option<LossSnapshot>, TimelineError>)
    ensures
        r == sorted_snapshot(sorted@, generation),
{
    let n = sorted.len();
    if n == 0 {
        return Ok(None);
    }
    let first_source_position_frames = sorted[0].source_position_frames;
    let encoded_cause = sorted[0].cause;
    let cause = match decode_cause(encoded_cause) {
        Some(cause) => cause,
        None => return Err(TimelineError::InvalidTiming),
    };
    let mut expected_position = first_source_position_frames;
    let mut dropped_frames: u64 = 0;
    let mut i: usize = 0;
    proof {
        assert(sorted@.subrange(0, n as int) == sorted@);
    }
    while i < n
        invariant
            n == sorted.len(),
            i <= n,
            n > 0,
            encoded_cause == sorted@[0].cause,
            first_source_position_frames == sorted@[0].source_position_frames,
            cause_of_code(encoded_cause) == Some(cause),
            chain_total(sorted@.subrange(i as int, n as int), expected_position, dropped_frames, encoded_cause)
                == chain_total(sorted@, first_source_position_frames, 0, encoded_cause),
        decreases n - i,
    {
        let run = sorted[i];
        proof {
            assert(sorted@.subrange(i as int, n as int).drop_first() == sorted@.subrange(i + 1, n as int));
            assert(sorted@.subrange(i as int, n as int)[0] == run);
        }
        if run.dropped_frames == 0 || run.cause != encoded_cause || run.source_position_frames != expected_position {
            return Err(TimelineError::InvalidTiming);
        }
        expected_position = match run.source_position_frames.checked_add(run.dropped_frames) {
            Some(end) => end,
            None => return Err(TimelineError::InvalidTiming),
        };
        dropped_frames = match dropped_frames.checked_add(run.dropped_frames) {
            Some(total) => total,
            None => return Err(TimelineError::InvalidTiming),
        };
        i = i + 1;
    }
    proof {
        assert(sorted@.subrange(n as int, n as int).len() == 0);
    }
    Ok(Some(LossSnapshot { first_source_position_frames, dropped_frames, cause, generation }))
}

/// The run a published cell holds.
pub open spec fn run_of(published: Option<RawLossRun>) -> RawLossRun {
    match published {
        Some(run) => run,
        None => RawLossRun { source_position_frames: 0, dropped_frames: 0, cause: NO_CAUSE },
    }
}

/// What a slot drains to: `claimed` runs were reserved, `published[i]` is
/// what cell `i` held, and `invalid` is the slot's own invalid flag.
pub open spec fn slot_snapshot(
    claimed: usize,
    invalid: bool,
    published: Seq<Option<RawLossRun>>,
    generation: u64,
) -> Result<Option<LossSnapshot>, TimelineError> {
    if invalid || claimed > LOSS_RUN_CAPACITY
        || (exists|i: int| 0 <= i < claimed && #[trigger] published[i] is None)
        || (exists|i: int| claimed <= i < published.len() && #[trigger] published[i] is Some) {
        Err(TimelineError::InvalidTiming)
    } else {
        sorted_snapshot(
            published.take(claimed as int).map_values(|p: Option<RawLossRun>| run_of(p)).sort_by(run_leq()),
            generation,
        )
    }
}

/// Reduces what a slot's cells held to one snapshot.
pub fn assemble_slot_snapshot(
    claimed: usize,
    invalid: bool,
    published: &Vec<Option<RawLossRun>>,
    generation: u64,
) -> (r: Result<Option<LossSnapshot>, TimelineError>)
    requires
        published.len() == LOSS_RUN_CAPACITY,
    ensures
        r == slot_snapshot(claimed, invalid, published@, generation),
{
    let ghost initially_invalid = invalid || claimed > LOSS_RUN_CAPACITY;
    let mut invalid = invalid || claimed > LOSS_RUN_CAPACITY;
    let mut runs: Vec<RawLossRun> = Vec::new();
    let mut index: usize = 0;
    while index < published.len()
        invariant
            published.len() == LOSS_RUN_CAPACITY,
            index <= published.len(),
            invalid == (initially_invalid
                || (exists|i: int| 0 <= i < index && i < claimed && #[trigger] published@[i] is None)
                || (exists|i: int| claimed <= i < index && #[trigger] published@[i] is Some)),
            !invalid ==> runs@ == published@.take(if index < claimed { index as int } else { claimed as int })
                .map_values(|p: Option<RawLossRun>| run_of(p)),
        decreases published.len() - index,
    {
        let cell = published[index];
        if index < claimed {
            match cell {
                Some(run) => {
                    runs.push(run);
                },
                None => {
                    invalid = true;
                },
            }
            proof {
                assert(published@.take(index + 1) == published@.take(index as int).push(cell));
            }
        } else if cell.is_some() {
            invalid = true;
        }
        index = index + 1;
    }
    if invalid {
        return Err(TimelineError::InvalidTiming);
    }
    if claimed == 0 {
        proof {
            let none = published@.take(0).map_values(|p: Option<RawLossRun>| run_of(p));
            assert(none.len() == 0);
            none.lemma_sort_by_ensures(run_leq());
            assert(none.sort_by(run_leq()).len() == 0) by {
                broadcast use group_to_multiset_ensures;
                assert(none.to_multiset().len() == 0);
                assert(none.sort_by(run_leq()).to_multiset().len() == 0);
            }
        }
        return Ok(None);
    }
    let sorted = sort_runs(&runs);
    snapshot_of_sorted(&sorted, generation)
}


/// A snapshot that stands for a nonempty interval ending within `u64`.
pub open spec fn snapshot_is_well_formed(s: LossSnapshot) -> bool {
    s.dropped_frames > 0 && s.first_source_position_frames + s.dropped_frames <= u64::MAX
}

proof fn lemma_chain_total_bounds(runs: Seq<RawLossRun>, expected: u64, dropped: u64, cause: u8)
    requires
        expected >= dropped,
        chain_total(runs, expected, dropped, cause) is Some,
    ensures
        chain_total(runs, expected, dropped, cause)->0 >= dropped,
        runs.len() > 0 ==> chain_total(runs, expected, dropped, cause)->0 > dropped,
        (expected - dropped) + chain_total(runs, expected, dropped, cause)->0 <= u64::MAX,
    decreases runs.len(),
{
    if runs.len() > 0 {
        let run = runs[0];
        lemma_chain_total_bounds(
            runs.drop_first(),
            (run.source_position_frames + run.dropped_frames) as u64,
            (dropped + run.dropped_frames) as u64,
            cause,
        );
    }
}

/// Whatever the cells held, a reported snapshot is a nonempty interval that
/// ends within `u64` and carries the generation it was drained for.
pub proof fn lemma_slot_snapshot_well_formed(
    claimed: usize,
    invalid: bool,
    published: Seq<Option<RawLossRun>>,
    generation: u64,
)
    requires
        slot_snapshot(claimed, invalid, published, generation) is Ok,
    ensures
        slot_snapshot(claimed, invalid, published, generation) matches Ok(Some(s))
            ==> snapshot_is_well_formed(s) && s.generation == generation,
{
    let sorted = published.take(claimed as int).map_values(|p: Option<RawLossRun>| run_of(p)).sort_by(run_leq());
    if sorted.len() > 0 {
        let first = sorted[0];
        if chain_total(sorted, first.source_position_frames, 0, first.cause) is Some {
            lemma_chain_total_bounds(sorted, first.source_position_frames, 0, first.cause);
        }
    }
}

/// Frames dropped by the first `k` runs.
pub open spec fn dropped_before(runs: Seq<RawLossRun>, k: int) -> int
    decreases k,
{
    if k <= 0 {
        0
    } else {
        dropped_before(runs, k - 1) + runs[k - 1].dropped_frames
    }
}

/// Ordered runs tile `[first, first + dropped_before(runs, len))` exactly:
/// each nonempty, of `cause`, starting where the previous one ended, the
/// whole interval ending within `u64`.
pub open spec fn runs_tile(runs: Seq<RawLossRun>, first: u64, cause: u8) -> bool {
    &&& forall|k: int| 0 <= k < runs.len() ==> {
        &&& (#[trigger] runs[k]).dropped_frames > 0
        &&& runs[k].cause == cause
        &&& runs[k].source_position_frames == first + dropped_before(runs, k)
    }
    &&& first + dropped_before(runs, runs.len() as int) <= u64::MAX
}

proof fn lemma_dropped_before_shift(runs: Seq<RawLossRun>, k: int)
    requires
        runs.len() > 0,
        0 <= k < runs.len(),
    ensures
        dropped_before(runs.drop_first(), k) == dropped_before(runs, k + 1) - runs[0].dropped_frames,
    decreases k,
{
    assert(dropped_before(runs, 0) == 0);
    assert(dropped_before(runs.drop_first(), 0) == 0);
    if k > 0 {
        lemma_dropped_before_shift(runs, k - 1);
        assert(runs.drop_first()[k - 1] == runs[k]);
    }
}

proof fn lemma_dropped_before_monotonic(runs: Seq<RawLossRun>, j: int, k: int)
    requires
        0 <= j <= k <= runs.len(),
    ensures
        dropped_before(runs, j) <= dropped_before(runs, k),
    decreases k - j,
{
    if j < k {
        lemma_dropped_before_monotonic(runs, j, k - 1);
    }
}

/// `chain_total` accepts exactly the runs that tile an interval from
/// `expected`, and totals them on top of `dropped`.
proof fn lemma_chain_total_tiles(runs: Seq<RawLossRun>, expected: u64, dropped: u64, cause: u8)
    requires
        dropped <= expected,
    ensures
        chain_total(runs, expected, dropped, cause) is Some <==> runs_tile(runs, expected, cause),
        chain_total(runs, expected, dropped, cause) matches Some(t) ==> t == dropped + dropped_before(
            runs,
            runs.len() as int,
        ),
    decreases runs.len(),
{
    if runs.len() > 0 {
        let run = runs[0];
        let rest = runs.drop_first();
        let n = runs.len() as int;
        assert(dropped_before(runs, 0) == 0);
        assert(dropped_before(runs, 1) == run.dropped_frames);
        if run.dropped_frames == 0 || run.cause != cause || run.source_position_frames != expected {
            assert(!runs_tile(runs, expected, cause)) by {
                if runs_tile(runs, expected, cause) {
                    assert(runs[0].source_position_frames == expected + dropped_before(runs, 0));
                }
            }
        } else if run.source_position_frames + run.dropped_frames > u64::MAX
            || dropped + run.dropped_frames > u64::MAX {
            assert(!runs_tile(runs, expected, cause)) by {
                if runs_tile(runs, expected, cause) {
                    lemma_dropped_before_monotonic(runs, 1, n);
                }
            }
        } else {
            let next = (run.source_position_frames + run.dropped_frames) as u64;
            let total = (dropped + run.dropped_frames) as u64;
            lemma_chain_total_tiles(rest, next, total, cause);
            if n > 1 {
                lemma_dropped_before_shift(runs, n - 1);
            }
            assert(runs_tile(rest, next, cause) <==> runs_tile(runs, expected, cause)) by {
                if runs_tile(rest, next, cause) {
                    assert forall|k: int| 0 <= k < runs.len() implies {
                        &&& (#[trigger] runs[k]).dropped_frames > 0
                        &&& runs[k].cause == cause
                        &&& runs[k].source_position_frames == expected + dropped_before(runs, k)
                    } by {
                        if k > 0 {
                            assert(runs[k] == rest[k - 1]);
                            lemma_dropped_before_shift(runs, k - 1);
                        }
                    }
                }
                if runs_tile(runs, expected, cause) {
                    assert forall|k: int| 0 <= k < rest.len() implies {
                        &&& (#[trigger] rest[k]).dropped_frames > 0
                        &&& rest[k].cause == cause
                        &&& rest[k].source_position_frames == next + dropped_before(rest, k)
                    } by {
                        assert(rest[k] == runs[k + 1]);
                        lemma_dropped_before_shift(runs, k);
                    }
                }
            }
        }
    }
}

/// Exact union, no fabrication: position-ordered runs drain to a snapshot
/// exactly when they tile one interval with one valid cause, and the
/// snapshot is that interval, from the first run's start over all dropped
/// frames. A hole, an overlap, a second cause, an empty run or an interval
/// past `u64` leaves no snapshot but `InvalidTiming`.
pub proof fn law_drained_interval_is_the_exact_union(sorted: Seq<RawLossRun>, generation: u64)
    requires
        sorted.len() > 0,
    ensures
        sorted_snapshot(sorted, generation) is Ok <==> cause_of_code(sorted[0].cause) is Some && runs_tile(
            sorted,
            sorted[0].source_position_frames,
            sorted[0].cause,
        ),
        sorted_snapshot(sorted, generation) is Err ==> sorted_snapshot(sorted, generation) == Err::<
            Option<LossSnapshot>,
            TimelineError,
        >(TimelineError::InvalidTiming),
        sorted_snapshot(sorted, generation) is Ok ==> sorted_snapshot(sorted, generation) == Ok::<
            Option<LossSnapshot>,
            TimelineError,
        >(
            Some(
                LossSnapshot {
                    first_source_position_frames: sorted[0].source_position_frames,
                    dropped_frames: dropped_before(sorted, sorted.len() as int) as u64,
                    cause: cause_of_code(sorted[0].cause)->0,
                    generation,
                },
            ),
        ),
{
    lemma_chain_total_tiles(sorted, sorted[0].source_position_frames, 0, sorted[0].cause);
}

proof fn lemma_sorted_runs_agree(a: Seq<RawLossRun>, b: Seq<RawLossRun>)
    requires
        a.to_multiset() == b.to_multiset(),
    ensures
        a.sort_by(run_leq()) == b.sort_by(run_leq()),
{
    broadcast use group_to_multiset_ensures;
    lemma_run_leq_total();
    a.lemma_sort_by_ensures(run_leq());
    b.lemma_sort_by_ensures(run_leq());
    lemma_sorted_unique(a.sort_by(run_leq()), b.sort_by(run_leq()), run_leq());
}

/// Publication order does not matter: runs published in any order, as the
/// same multiset, drain to the same result.
pub proof fn law_drain_ignores_publication_order(a: Seq<RawLossRun>, b: Seq<RawLossRun>, generation: u64)
    requires
        a.to_multiset() == b.to_multiset(),
    ensures
        sorted_snapshot(a.sort_by(run_leq()), generation) == sorted_snapshot(b.sort_by(run_leq()), generation),
{
    lemma_sorted_runs_agree(a, b);
}

/// One cell of a slot: a run a callback published, or nothing.
#[derive(Debug)]
pub struct LossRunCell {
    source_position_frames: AtomicU64,
    dropped_frames: AtomicU64,
    cause: AtomicU8,
    published: AtomicBool,
}

impl LossRunCell {
    pub fn new() -> (cell: LossRunCell) {
        LossRunCell {
            source_position_frames: AtomicU64::new(0),
            dropped_frames: AtomicU64::new(0),
            cause: AtomicU8::new(NO_CAUSE),
            published: AtomicBool::new(false),
        }
    }

    fn publish(&self, source_position_frames: u64, dropped_frames: u64, cause: GapCause) {
        self.source_position_frames.store(source_position_frames, Ordering::Relaxed);
        self.dropped_frames.store(dropped_frames, Ordering::Relaxed);
        self.cause.store(encode_cause(cause), Ordering::Relaxed);
        self.published.store(true, Ordering::Release);
    }

    /// The published run, if any; the cell is empty afterwards.
    fn take(&self) -> (run: Option<RawLossRun>) {
        if !self.published.load(Ordering::Acquire) {
            return None;
        }
        let run = RawLossRun {
            source_position_frames: self.source_position_frames.load(Ordering::Relaxed),
            dropped_frames: self.dropped_frames.load(Ordering::Relaxed),
            cause: self.cause.load(Ordering::Relaxed),
        };
        self.published.store(false, Ordering::Relaxed);
        Some(run)
    }
}

/// The runs of one generation, and the callbacks still writing into it.
#[derive(Debug)]
pub struct LossSlot {
    pub writers: AtomicUsize,
    pub claimed_runs: AtomicUsize,
    runs: Vec<LossRunCell>,
    invalid: AtomicBool,
}

impl LossSlot {
    /// The number of run cells the slot holds.
    pub closed spec fn cell_count(&self) -> nat {
        self.runs@.len()
    }

    /// An empty slot with one cell for each run a generation may hold.
    pub fn new() -> (slot: LossSlot)
        ensures
            slot.cell_count() == LOSS_RUN_CAPACITY,
    {
        let mut runs: Vec<LossRunCell> = Vec::new();
        let mut i: usize = 0;
        while i < LOSS_RUN_CAPACITY
            invariant
                i <= LOSS_RUN_CAPACITY,
                runs.len() == i,
            decreases LOSS_RUN_CAPACITY - i,
        {
            runs.push(LossRunCell::new());
            i = i + 1;
        }
        LossSlot {
            writers: AtomicUsize::new(0),
            claimed_runs: AtomicUsize::new(0),
            runs,
            invalid: AtomicBool::new(false),
        }
    }

    /// Claims the next cell and publishes the run there; a slot that is full,
    /// or a run whose end overflows, marks the slot invalid.
    pub fn record(&self, source_position_frames: u64, dropped_frames: u64, cause: GapCause) {
        let run_index = self.claimed_runs.fetch_add(1, Ordering::Relaxed);
        if run_index >= LOSS_RUN_CAPACITY || run_index >= self.runs.len() {
            self.invalid.store(true, Ordering::Relaxed);
            return;
        }
        if source_position_frames.checked_add(dropped_frames).is_none() {
            self.invalid.store(true, Ordering::Relaxed);
        }
        self.runs[run_index].publish(source_position_frames, dropped_frames, cause);
    }

    /// Empties the slot and reduces what it held to one snapshot.
    pub fn take(&self, generation: u64) -> (r: Result<Option<LossSnapshot>, TimelineError>)
        ensures
            exists|claimed: usize, invalid: bool, published: Seq<Option<RawLossRun>>|
                published.len() == LOSS_RUN_CAPACITY
                && r == slot_snapshot(claimed, invalid, published, generation),
    {
        let claimed = self.claimed_runs.swap(0, Ordering::Relaxed);
        let invalid = self.invalid.swap(false, Ordering::Relaxed);
        let mut published: Vec<Option<RawLossRun>> = Vec::new();
        let mut index: usize = 0;
        while index < LOSS_RUN_CAPACITY
            invariant
                index <= LOSS_RUN_CAPACITY,
                published.len() == index,
            decreases LOSS_RUN_CAPACITY - index,
        {
            let cell = if index < self.runs.len() {
                self.runs[index].take()
            } else {
                None
            };
            published.push(cell);
            index = index + 1;
        }
        assemble_slot_snapshot(claimed, invalid, &published, generation)
    }
}

/// Index of a ticket's completion and abort cells.
fn ticket_index(ticket: u64) -> (index: usize)
    ensures
        index < REGISTRATION_TICKET_CAPACITY,
        index == (ticket as int) % (REGISTRATION_TICKET_CAPACITY as int),
{
    (ticket % (REGISTRATION_TICKET_CAPACITY as u64)) as usize
}

/// Index of the slot a generation writes into.
fn slot_index(generation: u64) -> (index: usize)
    ensures
        index < 2,
        index == generation % 2,
{
    (generation % 2) as usize
}

/// The most registrations that may be outstanding at once.
fn ticket_capacity() -> (capacity: u64)
    ensures
        capacity == REGISTRATION_TICKET_CAPACITY,
{
    REGISTRATION_TICKET_CAPACITY as u64
}

/// `AtomicU64::store` with `SeqCst` ordering. The standard library documents
/// that a store panics only for `Acquire` and `AcqRel` orderings, so this one
/// does not unwind; it opens no invariant. Nothing is stated of the value.
#[verifier::external_body]
fn store_u64_from_drop(cell: &AtomicU64, value: u64)
    opens_invariants none
    no_unwind
{
    cell.store(value, Ordering::SeqCst);
}

/// `AtomicBool::store` with `SeqCst` ordering; as for `AtomicU64::store`, it
/// does not unwind and opens no invariant. Nothing is stated of the value.
#[verifier::external_body]
fn store_bool_from_drop(cell: &AtomicBool, value: bool)
    opens_invariants none
    no_unwind
{
    cell.store(value, Ordering::SeqCst);
}

/// `AtomicUsize::fetch_sub` with `Release` ordering, which wraps instead of
/// panicking, so it does not unwind; it opens no invariant. Nothing is stated
/// of the value.
#[verifier::external_body]
fn fetch_sub_usize_from_drop(cell: &AtomicUsize, value: usize)
    opens_invariants none
    no_unwind
{
    cell.fetch_sub(value, Ordering::Release);
}

/// A callback's registration: committed once its run is published, aborted
/// (and the accumulator invalidated) if it is dropped before that.
pub struct RegistrationTicket<'a> {
    completion: &'a AtomicU64,
    aborted: &'a AtomicU64,
    invalid: &'a AtomicBool,
    ticket: u64,
    committed: bool,
}

impl<'a> RegistrationTicket<'a> {
    /// Neither committed nor past the last ticket number.
    pub closed spec fn is_open(&self) -> bool {
        !self.committed && self.ticket < u64::MAX
    }

    /// The ticket's completion and abort cells in `losses`, if it has them.
    fn new(losses: &'a LossAccumulator, ticket: u64) -> (t: Option<RegistrationTicket<'a>>)
        requires
            ticket < u64::MAX,
        ensures
            t is Some <==> (ticket as int) % (REGISTRATION_TICKET_CAPACITY as int)
                < losses.registration_completion_tickets@.len() && (ticket as int) % (
            REGISTRATION_TICKET_CAPACITY as int) < losses.registration_aborted_tickets@.len(),
            t matches Some(t) ==> {
                &&& t.ticket == ticket
                &&& !t.committed
                &&& *t.completion == losses.registration_completion_tickets@[(ticket as int) % (
                REGISTRATION_TICKET_CAPACITY as int)]
                &&& *t.aborted == losses.registration_aborted_tickets@[(ticket as int) % (
                REGISTRATION_TICKET_CAPACITY as int)]
                &&& *t.invalid == losses.invalid
            },
    {
        let index = ticket_index(ticket);
        if index >= losses.registration_completion_tickets.len()
            || index >= losses.registration_aborted_tickets.len() {
            return None;
        }
        Some(RegistrationTicket {
            completion: &losses.registration_completion_tickets[index],
            aborted: &losses.registration_aborted_tickets[index],
            invalid: &losses.invalid,
            ticket,
            committed: false,
        })
    }

    fn commit(&mut self)
        requires
            old(self).ticket < u64::MAX,
        ensures
            final(self).committed,
    {
        self.completion.store(self.ticket + 1, Ordering::SeqCst);
        self.committed = true;
    }
}

impl<'a> Drop for RegistrationTicket<'a> {
    fn drop(&mut self)
        opens_invariants none
        no_unwind
    {
        if !self.committed && self.ticket < u64::MAX {
            store_u64_from_drop(self.aborted, self.ticket + 1);
            store_bool_from_drop(self.invalid, true);
        }
    }
}

/// Holds a slot's writer count up while a callback writes into it.
pub struct LossWriter<'a> {
    slot: &'a LossSlot,
}

impl<'a> LossWriter<'a> {
    fn new(slot: &'a LossSlot) -> (w: LossWriter<'a>)
        ensures
            *w.slot == *slot,
    {
        slot.writers.fetch_add(1, Ordering::Relaxed);
        LossWriter { slot }
    }
}

impl<'a> Drop for LossWriter<'a> {
    fn drop(&mut self)
        opens_invariants none
        no_unwind
    {
        fetch_sub_usize_from_drop(&self.slot.writers, 1);
    }
}

/// The drain the coordinator has started and not finished yet.
#[derive(Debug, Clone, Copy, PartialEq, Eq, Structural)]
pub struct PendingDrain {
    pub generation: u64,
    pub registration_floor: u64,
    pub registration_target: u64,
    pub registration_invalid: bool,
    pub counter_exhausted: bool,
}

/// Exclusive ownership of the drain side, and the drain it has pending.
#[derive(Debug)]
pub struct LossDrainCoordinator {
    held: AtomicBool,
    pending: AtomicBool,
    generation: AtomicU64,
    registration_floor: AtomicU64,
    registration_target: AtomicU64,
    registration_invalid: AtomicBool,
    counter_exhausted: AtomicBool,
}

impl LossDrainCoordinator {
    pub fn new() -> (c: LossDrainCoordinator) {
        LossDrainCoordinator {
            held: AtomicBool::new(false),
            pending: AtomicBool::new(false),
            generation: AtomicU64::new(0),
            registration_floor: AtomicU64::new(0),
            registration_target: AtomicU64::new(0),
            registration_invalid: AtomicBool::new(false),
            counter_exhausted: AtomicBool::new(false),
        }
    }

    /// Takes the coordinator if nobody holds it; `false` when it is contended.
    pub fn try_acquire(&self) -> (acquired: bool) {
        self.held.compare_exchange(false, true, Ordering::SeqCst, Ordering::SeqCst).is_ok()
    }

    /// Gives the coordinator back.
    pub fn release(&self) {
        self.held.store(false, Ordering::SeqCst);
    }

    fn pending(&self) -> (p: Option<PendingDrain>) {
        if !self.pending.load(Ordering::SeqCst) {
            return None;
        }
        Some(PendingDrain {
            generation: self.generation.load(Ordering::SeqCst),
            registration_floor: self.registration_floor.load(Ordering::SeqCst),
            registration_target: self.registration_target.load(Ordering::SeqCst),
            registration_invalid: self.registration_invalid.load(Ordering::SeqCst),
            counter_exhausted: self.counter_exhausted.load(Ordering::SeqCst),
        })
    }

    fn set_pending(&self, p: PendingDrain) {
        self.generation.store(p.generation, Ordering::SeqCst);
        self.registration_floor.store(p.registration_floor, Ordering::SeqCst);
        self.registration_target.store(p.registration_target, Ordering::SeqCst);
        self.registration_invalid.store(p.registration_invalid, Ordering::SeqCst);
        self.counter_exhausted.store(p.counter_exhausted, Ordering::SeqCst);
        self.pending.store(true, Ordering::SeqCst);
    }

    fn clear_pending(&self) {
        self.pending.store(false, Ordering::SeqCst);
    }
}

/// Whether every registration before a drain's target has finished.
#[derive(Debug, Clone, Copy, PartialEq, Eq, Structural)]
pub enum RegistrationReadiness {
    Ready,
    Pending,
    Invalid,
}

/// Whether `target - floor` registrations can all be outstanding at once:
/// the counters are ordered and within the ticket capacity.
pub open spec fn registration_window_is_valid(floor: u64, target: u64) -> bool {
    floor <= target && target - floor <= REGISTRATION_TICKET_CAPACITY
}

/// Decides the registration window of a new drain.
pub fn registration_window_invalid(floor: u64, target: u64) -> (invalid: bool)
    ensures
        invalid == !registration_window_is_valid(floor, target),
{
    match target.checked_sub(floor) {
        None => true,
        Some(outstanding) => outstanding > ticket_capacity(),
    }
}

/// The flags and counters of a loss accumulator, as plain values.
#[derive(Debug, Clone, Copy, PartialEq, Eq)]
pub struct LossState {
    pub active_generation: u64,
    pub registration_started: u64,
    pub registration_drained: u64,
    pub invalid: bool,
    pub registration_counter_exhausted: bool,
    pub generation_exhausted: bool,
    pub terminal_invalid_reported: bool,
    pub pending: Option<PendingDrain>,
}

/// What a drain reads beyond the accumulator's flags and counters: whether
/// another drain holds the coordinator, the registrations' readiness,
/// whether the slot exists and has writers, the invalid flag and the
/// counter-exhaustion flag when the drain settles, and what the slot
/// reduced to.
#[derive(Debug, Clone, Copy, PartialEq, Eq)]
pub struct DrainEnvironment {
    pub coordinator_contended: bool,
    pub readiness: RegistrationReadiness,
    pub slot_present: bool,
    pub writers_busy: bool,
    pub invalid_at_settle: bool,
    pub counter_exhausted_at_settle: bool,
    pub snapshot: Result<Option<LossSnapshot>, TimelineError>,
}

/// How a drain starts.
#[derive(Debug, Clone, Copy, PartialEq, Eq, Structural)]
pub enum DrainBegin {
    /// Refused: generations are exhausted, or the terminal failure was reported.
    Refuse,
    /// The drain already started goes on.
    Resume(PendingDrain),
    /// A new drain retires the active generation.
    Start,
}

/// How a started drain proceeds once its registrations were looked at.
#[derive(Debug, Clone, Copy, PartialEq, Eq, Structural)]
pub enum DrainProgress {
    /// Registrations or writers are unfinished.
    Wait,
    /// The generation's slot does not exist.
    SlotMissing,
    /// The slot may be taken.
    Take,
}

/// What a taken drain reports, before the invalid flag is consumed.
#[derive(Debug, Clone, Copy, PartialEq, Eq, Structural)]
pub enum DrainVerdict {
    /// A registration was aborted or the window was invalid: this generation
    /// is spoiled, and the invalid flag is cleared.
    Spoiled,
    /// The registration counter is exhausted: the failure is terminal.
    Terminal,
    /// The slot's reduction stands unless the accumulator was invalidated.
    Check,
}

/// Whether a drain is refused, goes on, or starts.
pub open spec fn drain_begin(generation_exhausted: bool, current: Option<PendingDrain>, terminal_reported: bool) -> DrainBegin {
    if generation_exhausted || (terminal_reported && current is None) {
        DrainBegin::Refuse
    } else {
        match current {
            Some(p) => DrainBegin::Resume(p),
            None => DrainBegin::Start,
        }
    }
}

/// The drain that retires `generation` with registrations `[floor, target)`.
pub open spec fn pending_for(generation: u64, floor: u64, target: u64, counter_exhausted: bool) -> PendingDrain {
    PendingDrain {
        generation,
        registration_floor: floor,
        registration_target: target,
        registration_invalid: !registration_window_is_valid(floor, target),
        counter_exhausted,
    }
}

/// The registrations' readiness as the drain takes it: an invalid window
/// makes them invalid without looking.
pub open spec fn effective_readiness(p: PendingDrain, loaded: RegistrationReadiness) -> RegistrationReadiness {
    if p.registration_invalid { RegistrationReadiness::Invalid } else { loaded }
}

/// Whether a started drain waits, finds no slot, or takes the slot.
pub open spec fn drain_progress(p: PendingDrain, loaded: RegistrationReadiness, slot_present: bool, writers_busy: bool) -> DrainProgress {
    if effective_readiness(p, loaded) == RegistrationReadiness::Pending {
        DrainProgress::Wait
    } else if !slot_present {
        DrainProgress::SlotMissing
    } else if writers_busy {
        DrainProgress::Wait
    } else {
        DrainProgress::Take
    }
}

/// What a taken drain reports before the invalid flag is consumed.
pub open spec fn drain_verdict(p: PendingDrain, readiness: RegistrationReadiness, counter_exhausted_now: bool) -> DrainVerdict {
    if p.registration_invalid || readiness == RegistrationReadiness::Invalid {
        DrainVerdict::Spoiled
    } else if p.counter_exhausted || counter_exhausted_now {
        DrainVerdict::Terminal
    } else {
        DrainVerdict::Check
    }
}

/// The result of a checked drain: `InvalidTiming` when the accumulator was
/// invalidated, else `Empty` for an empty slot, the snapshot it reduced to,
/// or its error.
pub open spec fn drain_result(invalid_was: bool, snapshot: Result<Option<LossSnapshot>, TimelineError>) -> Result<TryDrain, TimelineError> {
    if invalid_was {
        Err(TimelineError::InvalidTiming)
    } else {
        match snapshot {
            Ok(Some(s)) => Ok(TryDrain::Snapshot(s)),
            Ok(None) => Ok(TryDrain::Empty),
            Err(e) => Err(e),
        }
    }
}

/// A started drain `p` going on from `s1`.
pub open spec fn drain_settle(p: PendingDrain, s1: LossState, env: DrainEnvironment) -> (Result<TryDrain, TimelineError>, LossState) {
    match drain_progress(p, env.readiness, env.slot_present, env.writers_busy) {
        DrainProgress::Wait => (Ok(TryDrain::Pending), s1),
        DrainProgress::SlotMissing => (Err(TimelineError::InvalidTiming), s1),
        DrainProgress::Take => {
            let s2 = LossState { pending: None, registration_drained: p.registration_target, ..s1 };
            match drain_verdict(p, effective_readiness(p, env.readiness), env.counter_exhausted_at_settle) {
                DrainVerdict::Spoiled => (
                    Err(TimelineError::InvalidTiming),
                    LossState {
                        invalid: false,
                        terminal_invalid_reported: s1.terminal_invalid_reported || p.counter_exhausted
                            || env.counter_exhausted_at_settle,
                        ..s2
                    },
                ),
                DrainVerdict::Terminal => (
                    Err(TimelineError::InvalidTiming),
                    LossState { terminal_invalid_reported: true, ..s2 },
                ),
                DrainVerdict::Check => (
                    drain_result(env.invalid_at_settle, env.snapshot),
                    LossState { invalid: false, ..s2 },
                ),
            }
        },
    }
}

/// One non-blocking drain from state `s` in environment `env`: its result
/// and the state it leaves. A drain that starts retires the active
/// generation (at the last generation, generations become exhausted and the
/// accumulator invalid), records its registration window (invalidating the
/// accumulator when the window is impossible) and stays pending until its
/// registrations and writers finished; once taken, the registration floor
/// moves to the target and the verdict decides the result.
pub open spec fn drain_step(s: LossState, env: DrainEnvironment) -> (Result<TryDrain, TimelineError>, LossState) {
    if s.generation_exhausted {
        (Err(TimelineError::InvalidTiming), s)
    } else if env.coordinator_contended {
        (Ok(TryDrain::Pending), s)
    } else {
        match drain_begin(s.generation_exhausted, s.pending, s.terminal_invalid_reported) {
            DrainBegin::Refuse => (Err(TimelineError::InvalidTiming), s),
            DrainBegin::Resume(p) => drain_settle(p, s, env),
            DrainBegin::Start => if s.active_generation == u64::MAX {
                (Err(TimelineError::InvalidTiming), LossState { generation_exhausted: true, invalid: true, ..s })
            } else {
                let p = pending_for(
                    s.active_generation,
                    s.registration_drained,
                    s.registration_started,
                    s.registration_counter_exhausted,
                );
                drain_settle(
                    p,
                    LossState {
                        active_generation: (s.active_generation + 1) as u64,
                        invalid: s.invalid || p.registration_invalid,
                        pending: Some(p),
                        ..s
                    },
                    env,
                )
            },
        }
    }
}

/// The generation a drain from `s` takes: the pending one's, or the active one.
pub open spec fn drained_generation(s: LossState) -> u64 {
    match s.pending {
        Some(p) => p.generation,
        None => s.active_generation,
    }
}

/// `env`'s snapshot is what a slot of run cells reduces to for the
/// generation the drain takes.
pub open spec fn drain_observed(s: LossState, env: DrainEnvironment) -> bool {
    exists|claimed: usize, invalid: bool, published: Seq<Option<RawLossRun>>| {
        &&& published.len() == LOSS_RUN_CAPACITY
        &&& env.snapshot == slot_snapshot(claimed, invalid, published, drained_generation(s))
    }
}

/// How a registration attempt goes, given the started and drained counters.
#[derive(Debug, Clone, Copy, PartialEq, Eq, Structural)]
pub enum RegistrationStep {
    /// The counters are out of order: the accumulator is invalidated.
    Inconsistent,
    /// The counter is at its last value: it is exhausted, and the accumulator invalidated.
    CounterExhausted,
    /// As many registrations as the ticket ring holds are outstanding: the accumulator is invalidated.
    Full,
    /// Ticket `started` is taken.
    Take,
}

/// How a registration attempt goes.
pub open spec fn registration_step(started: u64, floor: u64) -> RegistrationStep {
    if started < floor {
        RegistrationStep::Inconsistent
    } else if started == u64::MAX {
        RegistrationStep::CounterExhausted
    } else if started - floor >= REGISTRATION_TICKET_CAPACITY {
        RegistrationStep::Full
    } else {
        RegistrationStep::Take
    }
}

/// Whether a callback's loss is recorded at all: only a nonempty one, while
/// generations last.
pub open spec fn loss_admitted(dropped_frames: u64, generation_exhausted: bool) -> bool {
    dropped_frames > 0 && !generation_exhausted
}

/// One `record` from state `s`, when nothing else runs: the state it leaves,
/// and whether a run was written into the active generation's slot.
pub open spec fn record_step(s: LossState, dropped_frames: u64) -> (LossState, bool) {
    if !loss_admitted(dropped_frames, s.generation_exhausted) {
        (s, false)
    } else {
        match registration_step(s.registration_started, s.registration_drained) {
            RegistrationStep::Inconsistent => (LossState { invalid: true, ..s }, false),
            RegistrationStep::Full => (LossState { invalid: true, ..s }, false),
            RegistrationStep::CounterExhausted => (
                LossState { registration_counter_exhausted: true, invalid: true, ..s },
                false,
            ),
            RegistrationStep::Take => (
                LossState { registration_started: (s.registration_started + 1) as u64, ..s },
                true,
            ),
        }
    }
}

/// What a drain result is as `drain` reports it.
pub open spec fn drained_value(r: Result<TryDrain, TimelineError>) -> Result<Option<LossSnapshot>, TimelineError> {
    match r {
        Ok(TryDrain::Snapshot(s)) => Ok(Some(s)),
        Ok(_) => Ok(None),
        Err(e) => Err(e),
    }
}

/// An environment in which nothing past the coordinator was looked at.
pub open spec fn unobserved_environment(contended: bool) -> DrainEnvironment {
    DrainEnvironment {
        coordinator_contended: contended,
        readiness: RegistrationReadiness::Invalid,
        slot_present: false,
        writers_busy: false,
        invalid_at_settle: false,
        counter_exhausted_at_settle: false,
        snapshot: Err(TimelineError::InvalidTiming),
    }
}

/// An untaken slot stands for `InvalidTiming`, which an invalid slot reduces to.
proof fn lemma_unobserved_snapshot(s: LossState, env: DrainEnvironment)
    requires
        env.snapshot == Err::<Option<LossSnapshot>, TimelineError>(TimelineError::InvalidTiming),
    ensures
        drain_observed(s, env),
{
    let published = Seq::new(LOSS_RUN_CAPACITY as nat, |i: int| None::<RawLossRun>);
    assert(env.snapshot == slot_snapshot(0, true, published, drained_generation(s)));
}

proof fn lemma_unobserved_environment(s: LossState, contended: bool)
    ensures
        drain_observed(s, unobserved_environment(contended)),
{
    lemma_unobserved_snapshot(s, unobserved_environment(contended));
}

/// Decides how a drain starts.
pub fn begin_drain(generation_exhausted: bool, current: Option<PendingDrain>, terminal_reported: bool) -> (r: DrainBegin)
    ensures
        r == drain_begin(generation_exhausted, current, terminal_reported),
{
    if generation_exhausted || (terminal_reported && current.is_none()) {
        DrainBegin::Refuse
    } else {
        match current {
            Some(p) => DrainBegin::Resume(p),
            None => DrainBegin::Start,
        }
    }
}

/// The generation after `active`, if there is one.
pub fn retire_generation(active: u64) -> (next: Option<u64>)
    ensures
        next == (if active == u64::MAX { None } else { Some((active + 1) as u64) }),
{
    active.checked_add(1)
}

/// The drain that retires `generation` with registrations `[floor, target)`.
pub fn pending_drain_for(generation: u64, floor: u64, target: u64, counter_exhausted: bool) -> (p: PendingDrain)
    ensures
        p == pending_for(generation, floor, target, counter_exhausted),
{
    PendingDrain {
        generation,
        registration_floor: floor,
        registration_target: target,
        registration_invalid: registration_window_invalid(floor, target),
        counter_exhausted,
    }
}

/// Decides whether a started drain waits, finds no slot, or takes it.
pub fn progress_of_drain(p: &PendingDrain, loaded: RegistrationReadiness, slot_present: bool, writers_busy: bool) -> (r: DrainProgress)
    ensures
        r == drain_progress(*p, loaded, slot_present, writers_busy),
{
    let readiness = if p.registration_invalid { RegistrationReadiness::Invalid } else { loaded };
    if readiness == RegistrationReadiness::Pending {
        DrainProgress::Wait
    } else if !slot_present {
        DrainProgress::SlotMissing
    } else if writers_busy {
        DrainProgress::Wait
    } else {
        DrainProgress::Take
    }
}

/// Decides what a taken drain reports before the invalid flag is consumed.
pub fn verdict_of_drain(p: &PendingDrain, loaded: RegistrationReadiness, counter_exhausted_now: bool) -> (r: DrainVerdict)
    ensures
        r == drain_verdict(*p, effective_readiness(*p, loaded), counter_exhausted_now),
{
    if p.registration_invalid || loaded == RegistrationReadiness::Invalid {
        DrainVerdict::Spoiled
    } else if p.counter_exhausted || counter_exhausted_now {
        DrainVerdict::Terminal
    } else {
        DrainVerdict::Check
    }
}

/// The result of a checked drain.
pub fn result_of_drain(invalid_was: bool, snapshot: Result<Option<LossSnapshot>, TimelineError>) -> (r: Result<TryDrain, TimelineError>)
    ensures
        r == drain_result(invalid_was, snapshot),
{
    if invalid_was {
        return Err(TimelineError::InvalidTiming);
    }
    match snapshot {
        Ok(Some(s)) => Ok(TryDrain::Snapshot(s)),
        Ok(None) => Ok(TryDrain::Empty),
        Err(e) => Err(e),
    }
}

/// Decides how a registration attempt goes.
pub fn decide_registration(started: u64, floor: u64) -> (r: RegistrationStep)
    ensures
        r == registration_step(started, floor),
{
    if started < floor {
        RegistrationStep::Inconsistent
    } else if started == u64::MAX {
        RegistrationStep::CounterExhausted
    } else if started - floor >= ticket_capacity() {
        RegistrationStep::Full
    } else {
        RegistrationStep::Take
    }
}

/// Decides whether a callback's loss is recorded at all.
pub fn admits_loss(dropped_frames: u64, generation_exhausted: bool) -> (r: bool)
    ensures
        r == loss_admitted(dropped_frames, generation_exhausted),
{
    dropped_frames > 0 && !generation_exhausted
}

/// One whole drain decided on plain values, from the same steps the
/// accumulator takes between its loads: the result and the state it leaves.
pub fn decide_drain(s: LossState, env: DrainEnvironment) -> (r: (Result<TryDrain, TimelineError>, LossState))
    ensures
        r == drain_step(s, env),
{
    if s.generation_exhausted {
        return (Err(TimelineError::InvalidTiming), s);
    }
    if env.coordinator_contended {
        return (Ok(TryDrain::Pending), s);
    }
    let (p, s1) = match begin_drain(s.generation_exhausted, s.pending, s.terminal_invalid_reported) {
        DrainBegin::Refuse => return (Err(TimelineError::InvalidTiming), s),
        DrainBegin::Resume(p) => (p, s),
        DrainBegin::Start => match retire_generation(s.active_generation) {
            None => return (
                Err(TimelineError::InvalidTiming),
                LossState { generation_exhausted: true, invalid: true, ..s },
            ),
            Some(next) => {
                let p = pending_drain_for(
                    s.active_generation,
                    s.registration_drained,
                    s.registration_started,
                    s.registration_counter_exhausted,
                );
                (p, LossState { active_generation: next, invalid: s.invalid || p.registration_invalid, pending: Some(p), ..s })
            },
        },
    };
    match progress_of_drain(&p, env.readiness, env.slot_present, env.writers_busy) {
        DrainProgress::Wait => (Ok(TryDrain::Pending), s1),
        DrainProgress::SlotMissing => (Err(TimelineError::InvalidTiming), s1),
        DrainProgress::Take => {
            let s2 = LossState { pending: None, registration_drained: p.registration_target, ..s1 };
            match verdict_of_drain(&p, env.readiness, env.counter_exhausted_at_settle) {
                DrainVerdict::Spoiled => (
                    Err(TimelineError::InvalidTiming),
                    LossState {
                        invalid: false,
                        terminal_invalid_reported: s1.terminal_invalid_reported || p.counter_exhausted
                            || env.counter_exhausted_at_settle,
                        ..s2
                    },
                ),
                DrainVerdict::Terminal => (
                    Err(TimelineError::InvalidTiming),
                    LossState { terminal_invalid_reported: true, ..s2 },
                ),
                DrainVerdict::Check => (
                    result_of_drain(env.invalid_at_settle, env.snapshot),
                    LossState { invalid: false, ..s2 },
                ),
            }
        },
    }
}

/// Lock-free loss accounting for capture callbacks: callbacks record runs into
/// the active generation's slot; the coordinator flips the generation and
/// drains the retired slot once every registration before the flip finished.
#[derive(Debug)]
pub struct LossAccumulator {
    pub active_generation: AtomicU64,
    pub registration_started: AtomicU64,
    pub registration_drained: AtomicU64,
    pub registration_completion_tickets: Vec<AtomicU64>,
    pub registration_aborted_tickets: Vec<AtomicU64>,
    pub invalid: AtomicBool,
    pub registration_counter_exhausted: AtomicBool,
    pub generation_exhausted: AtomicBool,
    pub terminal_invalid_reported: AtomicBool,
    pub coordinator: LossDrainCoordinator,
    pub slots: Vec<LossSlot>,
}

fn ticket_cells() -> (cells: Vec<AtomicU64>)
    ensures
        cells.len() == REGISTRATION_TICKET_CAPACITY,
{
    let mut cells: Vec<AtomicU64> = Vec::new();
    let mut i: usize = 0;
    while i < REGISTRATION_TICKET_CAPACITY
        invariant
            i <= REGISTRATION_TICKET_CAPACITY,
            cells.len() == i,
        decreases REGISTRATION_TICKET_CAPACITY - i,
    {
        cells.push(AtomicU64::new(0));
        i = i + 1;
    }
    cells
}

impl LossAccumulator {
    pub fn new() -> (losses: LossAccumulator)
        ensures
            losses.registration_completion_tickets.len() == REGISTRATION_TICKET_CAPACITY,
            losses.registration_aborted_tickets.len() == REGISTRATION_TICKET_CAPACITY,
            losses.slots.len() == 2,
    {
        let mut slots: Vec<LossSlot> = Vec::new();
        slots.push(LossSlot::new());
        slots.push(LossSlot::new());
        LossAccumulator {
            active_generation: AtomicU64::new(0),
            registration_started: AtomicU64::new(0),
            registration_drained: AtomicU64::new(0),
            registration_completion_tickets: ticket_cells(),
            registration_aborted_tickets: ticket_cells(),
            invalid: AtomicBool::new(false),
            registration_counter_exhausted: AtomicBool::new(false),
            generation_exhausted: AtomicBool::new(false),
            terminal_invalid_reported: AtomicBool::new(false),
            coordinator: LossDrainCoordinator::new(),
            slots,
        }
    }

    /// Records a dropped run from a capture callback; never blocks. What a
    /// record does alone is `record_step`: zero-length losses and losses after
    /// generations ran out are ignored (`admits_loss`), and its registration
    /// is decided by `decide_registration`.
    pub fn record(&self, source_position_frames: u64, dropped_frames: u64, cause: GapCause) {
        self.record_inner(source_position_frames, dropped_frames, cause, || {}, || {});
    }

    /// Marks the current drain invalid.
    pub fn invalidate(&self) {
        self.invalid.store(true, Ordering::SeqCst);
    }

    fn record_inner<F: FnOnce(), G: FnOnce()>(
        &self,
        source_position_frames: u64,
        dropped_frames: u64,
        cause: GapCause,
        after_entrant_registered: F,
        after_generation_read: G,
    )
        requires
            after_entrant_registered.requires(()),
            after_generation_read.requires(()),
    {
        if !admits_loss(dropped_frames, self.generation_exhausted.load(Ordering::SeqCst)) {
            return;
        }
        let mut registration = match self.begin_registration() {
            Some(registration) => registration,
            None => return,
        };
        after_entrant_registered();
        let generation = self.active_generation.load(Ordering::SeqCst);
        after_generation_read();
        let index = slot_index(generation);
        if index < self.slots.len() {
            let slot = &self.slots[index];
            let _writer = LossWriter::new(slot);
            slot.record(source_position_frames, dropped_frames, cause);
        }
        registration.commit();
    }

    /// Registers a callback's entry: the ticket it commits once its run is
    /// published. Dropped uncommitted (as when the callback unwinds), the
    /// ticket leaves the accumulator permanently invalid. `None`, with the
    /// accumulator invalidated, when no ticket can be had.
    pub fn begin_registration(&self) -> (r: Option<RegistrationTicket<'_>>)
        ensures
            r matches Some(t) ==> t.is_open(),
    {
        let started = match self.reserve_registration_ticket() {
            Some(started) => started,
            None => return None,
        };
        match RegistrationTicket::new(self, started) {
            Some(registration) => Some(registration),
            None => {
                self.invalidate();
                None
            },
        }
    }

    /// Reserves the next registration ticket, or invalidates the accumulator
    /// when the counters are inconsistent, exhausted or over capacity.
    fn reserve_registration_ticket(&self) -> (ticket: Option<u64>)
        ensures
            ticket matches Some(t) ==> t < u64::MAX,
    {
        let mut attempts: u64 = 0;
        while attempts < u64::MAX
            decreases u64::MAX - attempts,
        {
            let started = self.registration_started.load(Ordering::SeqCst);
            let registration_floor = self.registration_drained.load(Ordering::SeqCst);
            match decide_registration(started, registration_floor) {
                RegistrationStep::Inconsistent | RegistrationStep::Full => {
                    self.invalidate();
                    return None;
                },
                RegistrationStep::CounterExhausted => {
                    self.registration_counter_exhausted.store(true, Ordering::SeqCst);
                    self.invalidate();
                    return None;
                },
                RegistrationStep::Take => {},
            }
            if self.registration_started.compare_exchange_weak(
                started,
                started + 1,
                Ordering::SeqCst,
                Ordering::SeqCst,
            ).is_ok() {
                return Some(started);
            }
            attempts = attempts + 1;
        }
        self.invalidate();
        None
    }

    /// Polls the drain without blocking. The result is `drain_step` on the
    /// values this call loaded, each when it loaded it, and the stores it
    /// makes are that step's next state: `Pending` while the coordinator is
    /// contended or registrations or writers are unfinished, `Empty` when
    /// nothing was lost, the drained interval of the retired generation, or
    /// `InvalidTiming` as the verdict says.
    pub fn try_drain(&self) -> (r: Result<TryDrain, TimelineError>)
        ensures
            exists|s: LossState, env: DrainEnvironment| #[trigger] drain_observed(s, env) && r == drain_step(s, env).0,
    {
        if self.generation_exhausted.load(Ordering::SeqCst) {
            let ghost s = LossState {
                active_generation: 0,
                registration_started: 0,
                registration_drained: 0,
                invalid: false,
                registration_counter_exhausted: false,
                generation_exhausted: true,
                terminal_invalid_reported: false,
                pending: None,
            };
            let ghost env = unobserved_environment(false);
            proof {
                lemma_unobserved_environment(s, false);
            }
            return Err(TimelineError::InvalidTiming);
        }
        if !self.coordinator.try_acquire() {
            let ghost s = LossState {
                active_generation: 0,
                registration_started: 0,
                registration_drained: 0,
                invalid: false,
                registration_counter_exhausted: false,
                generation_exhausted: false,
                terminal_invalid_reported: false,
                pending: None,
            };
            let ghost env = unobserved_environment(true);
            proof {
                lemma_unobserved_environment(s, true);
            }
            return Ok(TryDrain::Pending);
        }
        let r = self.try_drain_held();
        self.coordinator.release();
        r
    }

    fn try_drain_held(&self) -> (r: Result<TryDrain, TimelineError>)
        ensures
            exists|s: LossState, env: DrainEnvironment| #[trigger] drain_observed(s, env) && r == drain_step(s, env).0,
    {
        let generation_exhausted = self.generation_exhausted.load(Ordering::SeqCst);
        let current = self.coordinator.pending();
        let terminal_reported = self.terminal_invalid_reported.load(Ordering::SeqCst);
        let ghost mut s = LossState {
            active_generation: 0,
            registration_started: 0,
            registration_drained: 0,
            invalid: false,
            registration_counter_exhausted: false,
            generation_exhausted,
            terminal_invalid_reported: terminal_reported,
            pending: current,
        };
        let pending = match begin_drain(generation_exhausted, current, terminal_reported) {
            DrainBegin::Refuse => {
                proof {
                    lemma_unobserved_environment(s, false);
                }
                return Err(TimelineError::InvalidTiming);
            },
            DrainBegin::Resume(pending) => pending,
            DrainBegin::Start => {
                let active = self.active_generation.load(Ordering::SeqCst);
                proof {
                    s = LossState { active_generation: active, ..s };
                }
                match retire_generation(active) {
                    None => {
                        self.generation_exhausted.store(true, Ordering::SeqCst);
                        self.invalidate();
                        proof {
                            lemma_unobserved_environment(s, false);
                        }
                        return Err(TimelineError::InvalidTiming);
                    },
                    Some(next) => {
                        self.active_generation.store(next, Ordering::SeqCst);
                        let registration_floor = self.registration_drained.load(Ordering::SeqCst);
                        let registration_target = self.registration_started.load(Ordering::SeqCst);
                        let counter_exhausted = self.registration_counter_exhausted.load(Ordering::SeqCst);
                        proof {
                            s = LossState {
                                registration_drained: registration_floor,
                                registration_started: registration_target,
                                registration_counter_exhausted: counter_exhausted,
                                ..s
                            };
                        }
                        let pending = pending_drain_for(active, registration_floor, registration_target, counter_exhausted);
                        if pending.registration_invalid {
                            self.invalidate();
                        }
                        self.coordinator.set_pending(pending);
                        pending
                    },
                }
            },
        };
        let readiness = if pending.registration_invalid {
            RegistrationReadiness::Invalid
        } else {
            self.registrations_are_ready(&pending)
        };
        let index = slot_index(pending.generation);
        let slot_present = index < self.slots.len();
        let writers_busy = slot_present && self.slots[index].writers.load(Ordering::Acquire) != 0;
        let ghost mut env = DrainEnvironment {
            coordinator_contended: false,
            readiness,
            slot_present,
            writers_busy,
            invalid_at_settle: false,
            counter_exhausted_at_settle: false,
            snapshot: Err(TimelineError::InvalidTiming),
        };
        match progress_of_drain(&pending, readiness, slot_present, writers_busy) {
            DrainProgress::Wait => {
                proof {
                    lemma_unobserved_snapshot(s, env);
                }
                return Ok(TryDrain::Pending);
            },
            DrainProgress::SlotMissing => {
                proof {
                    lemma_unobserved_snapshot(s, env);
                }
                return Err(TimelineError::InvalidTiming);
            },
            DrainProgress::Take => {},
        }
        let slot = &self.slots[index];
        self.coordinator.clear_pending();
        let snapshot = slot.take(pending.generation);
        let counter_exhausted_now = self.registration_counter_exhausted.load(Ordering::SeqCst);
        proof {
            env = DrainEnvironment { counter_exhausted_at_settle: counter_exhausted_now, snapshot, ..env };
        }
        match verdict_of_drain(&pending, readiness, counter_exhausted_now) {
            DrainVerdict::Spoiled => {
                self.registration_drained.store(pending.registration_target, Ordering::SeqCst);
                self.invalid.store(false, Ordering::SeqCst);
                if pending.counter_exhausted || counter_exhausted_now {
                    self.terminal_invalid_reported.store(true, Ordering::SeqCst);
                }
                assert(drain_observed(s, env));
                Err(TimelineError::InvalidTiming)
            },
            DrainVerdict::Terminal => {
                self.registration_drained.store(pending.registration_target, Ordering::SeqCst);
                self.terminal_invalid_reported.store(true, Ordering::SeqCst);
                assert(drain_observed(s, env));
                Err(TimelineError::InvalidTiming)
            },
            DrainVerdict::Check => {
                self.registration_drained.store(pending.registration_target, Ordering::SeqCst);
                let invalid_was = self.invalid.swap(false, Ordering::SeqCst);
                proof {
                    env = DrainEnvironment { invalid_at_settle: invalid_was, ..env };
                }
                let r = result_of_drain(invalid_was, snapshot);
                assert(drain_observed(s, env));
                r
            },
        }
    }

    /// Polls until the drain is no longer pending: the first result other
    /// than `Pending`, as `Empty` → `None` and a snapshot → `Some`, or
    /// `DrainIncomplete` after `u64::MAX` polls that all stayed pending.
    pub fn drain(&self) -> (r: Result<Option<LossSnapshot>, TimelineError>)
        ensures
            r == Err::<Option<LossSnapshot>, TimelineError>(TimelineError::DrainIncomplete) || exists|
                s: LossState,
                env: DrainEnvironment,
            | {
                &&& #[trigger] drain_observed(s, env)
                &&& drain_step(s, env).0 != Ok::<TryDrain, TimelineError>(TryDrain::Pending)
                &&& r == drained_value(drain_step(s, env).0)
            },
    {
        let mut attempts: u64 = 0;
        while attempts < u64::MAX
            decreases u64::MAX - attempts,
        {
            let polled = self.try_drain();
            match polled {
                Err(e) => return Err(e),
                Ok(TryDrain::Empty) => return Ok(None),
                Ok(TryDrain::Snapshot(s)) => return Ok(Some(s)),
                Ok(TryDrain::Pending) => {},
            }
            attempts = attempts + 1;
        }
        Err(TimelineError::DrainIncomplete)
    }

    /// Whether every registration in `[floor, target)` completed; `Invalid`
    /// as soon as one of them was aborted.
    fn registrations_are_ready(&self, pending: &PendingDrain) -> (r: RegistrationReadiness)
        ensures
            pending.registration_floor >= pending.registration_target ==> r == RegistrationReadiness::Ready,
    {
        let mut ticket = pending.registration_floor;
        while ticket < pending.registration_target
            invariant
                pending.registration_floor <= ticket,
            decreases pending.registration_target - ticket,
        {
            let expected = ticket + 1;
            let index = ticket_index(ticket);
            if index >= self.registration_completion_tickets.len()
                || index >= self.registration_aborted_tickets.len() {
                return RegistrationReadiness::Invalid;
            }
            if self.registration_completion_tickets[index].load(Ordering::SeqCst) == expected {
                ticket = ticket + 1;
                continue;
            }
            if self.registration_aborted_tickets[index].load(Ordering::SeqCst) == expected {
                return RegistrationReadiness::Invalid;
            }
            return RegistrationReadiness::Pending;
        }
        RegistrationReadiness::Ready
    }

    /// `record` with hooks that run after the registration is taken and after
    /// the generation is read, for exercising interleavings.
    pub fn record_with_registration_hooks<F: FnOnce(), G: FnOnce()>(
        &self,
        source_position_frames: u64,
        dropped_frames: u64,
        cause: GapCause,
        after_started: F,
        after_generation_read: G,
    )
        requires
            after_started.requires(()),
            after_generation_read.requires(()),
    {
        self.record_inner(source_position_frames, dropped_frames, cause, after_started, after_generation_read);
    }
}


/// A state from which a new drain starts cleanly: generations and the
/// counter last, nothing is pending or reported terminal, and the
/// registration window is possible.
pub open spec fn drain_can_start(s: LossState) -> bool {
    &&& !s.generation_exhausted
    &&& !s.registration_counter_exhausted
    &&& !s.terminal_invalid_reported
    &&& s.pending is None
    &&& s.active_generation < u64::MAX
    &&& registration_window_is_valid(s.registration_drained, s.registration_started)
}

/// A drain that runs alone to completion: uncontended, with every
/// registration and writer finished, and reading the state's own flags when
/// it settles.
pub open spec fn drains_alone(s: LossState, env: DrainEnvironment) -> bool {
    &&& !env.coordinator_contended
    &&& env.readiness == RegistrationReadiness::Ready
    &&& env.slot_present
    &&& !env.writers_busy
    &&& env.invalid_at_settle == s.invalid
    &&& env.counter_exhausted_at_settle == s.registration_counter_exhausted
}

/// Running out of generations is terminal: once generations are exhausted,
/// every drain is `InvalidTiming` and changes nothing, and every record is
/// ignored.
pub proof fn law_generation_exhaustion_is_terminal(s: LossState, env: DrainEnvironment, dropped_frames: u64)
    requires
        s.generation_exhausted,
    ensures
        drain_step(s, env) == (Err::<TryDrain, TimelineError>(TimelineError::InvalidTiming), s),
        record_step(s, dropped_frames) == (s, false),
{
}

/// The last generation is never drained: a drain that would retire it
/// fails with `InvalidTiming` and leaves generations exhausted and the
/// accumulator invalid.
pub proof fn law_the_last_generation_exhausts(s: LossState, env: DrainEnvironment)
    requires
        !s.generation_exhausted,
        !env.coordinator_contended,
        s.pending is None,
        !s.terminal_invalid_reported,
        s.active_generation == u64::MAX,
    ensures
        drain_step(s, env).0 == Err::<TryDrain, TimelineError>(TimelineError::InvalidTiming),
        drain_step(s, env).1.generation_exhausted,
        drain_step(s, env).1.invalid,
{
}

/// Zero-length losses are ignored: recording one changes nothing.
pub proof fn law_zero_length_losses_are_ignored(s: LossState)
    ensures
        record_step(s, 0) == (s, false),
{
}

/// A slot nothing was recorded into drains to no snapshot.
pub proof fn law_empty_slot_drains_empty(published: Seq<Option<RawLossRun>>, generation: u64)
    requires
        published.len() == LOSS_RUN_CAPACITY,
        forall|i: int| 0 <= i < published.len() ==> #[trigger] published[i] is None,
    ensures
        slot_snapshot(0, false, published, generation) == Ok::<Option<LossSnapshot>, TimelineError>(None),
{
    broadcast use group_to_multiset_ensures;
    let taken = published.take(0).map_values(|p: Option<RawLossRun>| run_of(p));
    assert(taken.len() == 0);
    lemma_run_leq_total();
    taken.lemma_sort_by_ensures(run_leq());
    assert(taken.to_multiset().len() == 0);
    assert(taken.sort_by(run_leq()).to_multiset().len() == taken.sort_by(run_leq()).len());
}

/// A drain that starts cleanly and runs alone retires the active
/// generation and reports its slot: `Empty` for an empty slot, else the
/// exact interval its runs tile, carrying that generation, or
/// `InvalidTiming`; and `InvalidTiming` regardless when the accumulator was
/// invalidated. Afterwards nothing is pending, the invalid flag is clear,
/// and every registration up to the target is accounted for.
pub proof fn law_a_drain_alone_reports_its_generation(s: LossState, env: DrainEnvironment)
    requires
        drain_can_start(s),
        drains_alone(s, env),
        drain_observed(s, env),
    ensures
        drain_step(s, env).0 == drain_result(s.invalid, env.snapshot),
        drain_step(s, env).0 matches Ok(TryDrain::Snapshot(sn)) ==> sn.generation == s.active_generation
            && snapshot_is_well_formed(sn),
        drain_step(s, env).1.pending is None,
        !drain_step(s, env).1.invalid,
        drain_step(s, env).1.active_generation == s.active_generation + 1,
        drain_step(s, env).1.registration_drained == s.registration_started,
        drain_step(s, env).1.registration_started == s.registration_started,
        !drain_step(s, env).1.terminal_invalid_reported,
{
    let (c, i, p) = choose|c: usize, i: bool, p: Seq<Option<RawLossRun>>|
        p.len() == LOSS_RUN_CAPACITY && env.snapshot == slot_snapshot(c, i, p, drained_generation(s));
    if env.snapshot is Ok {
        lemma_slot_snapshot_well_formed(c, i, p, s.active_generation);
    }
}

/// Invalidating spoils exactly the next completed drain: that drain is
/// `InvalidTiming` and clears the flag, and the drain after it, run alone
/// with no new invalidation, reports its own slot.
pub proof fn law_invalidation_spoils_exactly_the_next_drain(s: LossState, env1: DrainEnvironment, env2: DrainEnvironment)
    requires
        drain_can_start(s),
        s.active_generation < u64::MAX - 1,
        s.invalid,
        drains_alone(s, env1),
        drains_alone(drain_step(s, env1).1, env2),
    ensures
        drain_step(s, env1).0 == Err::<TryDrain, TimelineError>(TimelineError::InvalidTiming),
        drain_can_start(drain_step(s, env1).1),
        !drain_step(s, env1).1.invalid,
        drain_step(drain_step(s, env1).1, env2).0 == drain_result(false, env2.snapshot),
{
}

/// More registrations than the ticket ring holds spoil one generation only:
/// the record that finds the ring full is not written and invalidates the
/// accumulator, the next drain is `InvalidTiming` and frees the ring, the
/// next record is written, and the drain after that reports its slot for
/// the following generation.
pub proof fn law_ring_overflow_spoils_one_generation(
    s: LossState,
    dropped_frames: u64,
    env1: DrainEnvironment,
    env2: DrainEnvironment,
)
    requires
        drain_can_start(s),
        s.active_generation < u64::MAX - 1,
        s.registration_started < u64::MAX,
        s.registration_started - s.registration_drained == REGISTRATION_TICKET_CAPACITY,
        dropped_frames > 0,
        drains_alone(record_step(s, dropped_frames).0, env1),
        drains_alone(record_step(drain_step(record_step(s, dropped_frames).0, env1).1, dropped_frames).0, env2),
    ensures
        !record_step(s, dropped_frames).1,
        record_step(s, dropped_frames).0.invalid,
        drain_step(record_step(s, dropped_frames).0, env1).0 == Err::<TryDrain, TimelineError>(TimelineError::InvalidTiming),
        record_step(drain_step(record_step(s, dropped_frames).0, env1).1, dropped_frames).1,
        ({
            let s3 = record_step(drain_step(record_step(s, dropped_frames).0, env1).1, dropped_frames).0;
            &&& drained_generation(s3) == s.active_generation + 1
            &&& drain_step(s3, env2).0 == drain_result(false, env2.snapshot)
        }),
{
}

/// An exhausted registration counter is terminal: the drain that sees it
/// is `InvalidTiming` and reports the failure, and every later uncontended
/// drain is `InvalidTiming` and changes nothing.
pub proof fn law_counter_exhaustion_is_terminal(s: LossState, env1: DrainEnvironment, env2: DrainEnvironment)
    requires
        !s.generation_exhausted,
        !s.terminal_invalid_reported,
        s.pending is None,
        s.active_generation < u64::MAX,
        registration_window_is_valid(s.registration_drained, s.registration_started),
        s.registration_counter_exhausted,
        drains_alone(s, env1),
        !env2.coordinator_contended,
    ensures
        drain_step(s, env1).0 == Err::<TryDrain, TimelineError>(TimelineError::InvalidTiming),
        drain_step(s, env1).1.terminal_invalid_reported,
        drain_step(drain_step(s, env1).1, env2) == (
            Err::<TryDrain, TimelineError>(TimelineError::InvalidTiming),
            drain_step(s, env1).1,
        ),
{
}

} // verus!
