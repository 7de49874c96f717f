//! Why the append log is a faithful copy of the journal: the delta record
//! written from the durable state, replayed onto the journal that state
//! describes, gives back the journal that was current when it was written.

use vstd::prelude::*;
use crate::capture::coverage_starts_at_zero;
use crate::clock::{ClockMappingRevision, RecordingInput, RecordingRevisionTransition};
use crate::stream::{input_taken, InputWrite, StreamLedger};
use crate::frame::TrackConfigurationRevision;
use crate::frame::{same_gap, AudioGap};
use crate::journal::{
    coverage_index, frame_observed, gap_record_updated, gap_recorded, journal_track_index,
    lemma_coverage_index, lemma_coverage_index_from, lemma_no_coverage_index, lemma_track_index,
    saturating, timeline_gap_recorded, transition_accepted, transition_recorded, CaptureJournal,
    JournalTrack, SequenceCoverage, SequenceGap, SequenceGapOverflow, CAPTURE_SCHEMA_VERSION,
};
use crate::replay::{
    replays_to, JournalLine, JournalRecord, changed_coverage, coverage_after, delta_applied, delta_applies, durable_coverage_matches,
    durable_has_track, durable_of, first_changed, lemma_first_difference, new_tracks, previous_index,
    same_gaps, tracks_after, transitions_replayed, lemma_tracks_after_push, lemma_coverage_after_push,
    DurableJournalState, JournalDelta,
};

verus! {

/// What `DurableJournalState::delta` returns for `journal`.
pub open spec fn delta_of(durable: DurableJournalState, journal: CaptureJournal, d: JournalDelta) -> bool {
    &&& d.schema_version == CAPTURE_SCHEMA_VERSION
    &&& d.session_id == journal.session_id
    &&& d.tracks@ == new_tracks(durable.tracks@, journal.tracks@)
    &&& d.revision_transitions@.len() + durable.revision_transitions == if journal.track_configurations@.len()
        < journal.clock_mappings@.len() {
        journal.track_configurations@.len()
    } else {
        journal.clock_mappings@.len()
    }
    &&& forall|k: int| 0 <= k < d.revision_transitions@.len() ==> {
        &&& (#[trigger] d.revision_transitions@[k]).configuration
            == journal.track_configurations@[durable.revision_transitions + k]
        &&& d.revision_transitions@[k].clock_mapping == journal.clock_mappings@[durable.revision_transitions + k]
    }
    &&& d.timeline_gap_start_index == first_changed(durable.timeline_gaps@, journal.timeline_gaps@)
    &&& d.timeline_gaps@ == journal.timeline_gaps@.skip(d.timeline_gap_start_index as int)
    &&& d.sequence_coverage@ == changed_coverage(durable.sequence_coverage@, journal.sequence_coverage@)
    &&& d.gap_start_index == previous_index(durable.sequence_gaps as int)
    &&& d.sequence_gaps@ == journal.sequence_gaps@.skip(d.gap_start_index as int)
    &&& d.sequence_gap_overflow == journal.sequence_gap_overflow
    &&& d.sink_degraded == journal.sink_degraded
}

/// The revision transitions of `j` from index `from` on.
pub open spec fn revision_pairs(j: CaptureJournal, from: int) -> Seq<RecordingRevisionTransition> {
    Seq::new(
        (j.track_configurations@.len() - from) as nat,
        |k: int| RecordingRevisionTransition {
            configuration: j.track_configurations@[from + k],
            clock_mapping: j.clock_mappings@[from + k],
        },
    )
}

/// No two tracks share an identifier.
pub open spec fn distinct_tracks(ts: Seq<JournalTrack>) -> bool {
    forall|a: int, b: int| 0 <= a < b < ts.len() ==> (#[trigger] ts[a]).track_id@ != (#[trigger] ts[b]).track_id@
}

/// No two coverage entries share a track.
pub open spec fn distinct_coverage(cs: Seq<SequenceCoverage>) -> bool {
    forall|a: int, b: int| 0 <= a < b < cs.len() ==> (#[trigger] cs[a]).track_id@ != (#[trigger] cs[b]).track_id@
}

/// How a journal grows between two records, as its operations grow it:
/// same session; tracks only added, never two of one identifier; revision
/// transitions only appended, each accepted in turn; coverage entries kept
/// in place for their tracks (only their last sequence moves) and new ones
/// appended, every one starting at sequence zero; sequence gaps never fewer,
/// and those before the last durable one unchanged; degradation never undone.
pub open spec fn journal_grew(j0: CaptureJournal, j: CaptureJournal) -> bool {
    &&& j.schema_version == j0.schema_version
    &&& j.session_id == j0.session_id
    &&& j0.tracks@.len() <= j.tracks@.len()
    &&& j.tracks@.take(j0.tracks@.len() as int) == j0.tracks@
    &&& distinct_tracks(j.tracks@)
    &&& j.track_configurations@.len() == j.clock_mappings@.len()
    &&& j0.track_configurations@.len() <= j.track_configurations@.len()
    &&& transitions_replayed(
        j0.track_configurations@,
        j0.clock_mappings@,
        revision_pairs(j, j0.track_configurations@.len() as int),
    ) == Some((j.track_configurations@, j.clock_mappings@))
    &&& j0.sequence_coverage@.len() <= j.sequence_coverage@.len()
    &&& forall|i: int| 0 <= i < j0.sequence_coverage@.len() ==> {
        &&& (#[trigger] j.sequence_coverage@[i]).track_id == j0.sequence_coverage@[i].track_id
        &&& j.sequence_coverage@[i].first_sequence == j0.sequence_coverage@[i].first_sequence
    }
    &&& distinct_coverage(j.sequence_coverage@)
    &&& coverage_starts_at_zero(j.sequence_coverage@)
    &&& j0.sequence_gaps@.len() <= j.sequence_gaps@.len()
    &&& j.sequence_gaps@.take(previous_index(j0.sequence_gaps@.len() as int))
        == j0.sequence_gaps@.take(previous_index(j0.sequence_gaps@.len() as int))
    &&& j0.sink_degraded ==> j.sink_degraded
}

/// Two journals hold the same record: equal in every field, the timeline
/// gaps field by field.
pub open spec fn same_journal(a: CaptureJournal, b: CaptureJournal) -> bool {
    &&& a.schema_version == b.schema_version
    &&& a.session_id == b.session_id
    &&& a.tracks@ == b.tracks@
    &&& a.track_configurations@ == b.track_configurations@
    &&& a.clock_mappings@ == b.clock_mappings@
    &&& same_gaps(a.timeline_gaps@, b.timeline_gaps@)
    &&& a.sequence_coverage@ == b.sequence_coverage@
    &&& a.sequence_gaps@ == b.sequence_gaps@
    &&& a.sequence_gap_overflow == b.sequence_gap_overflow
    &&& a.sink_degraded == b.sink_degraded
}

/// The tracks a delta carries are exactly those added since the durable
/// state, and replaying them restores the journal's tracks.
proof fn lemma_tracks_replay(durable: DurableJournalState, j0: CaptureJournal, j: CaptureJournal, k: int)
    requires
        durable_of(durable, j0),
        journal_grew(j0, j),
        j0.tracks@.len() <= k <= j.tracks@.len(),
    ensures
        new_tracks(durable.tracks@, j.tracks@.take(k)) == j.tracks@.subrange(j0.tracks@.len() as int, k),
        tracks_after(j0.tracks@, j.tracks@.subrange(j0.tracks@.len() as int, k)) == j.tracks@.take(k),
    decreases k,
{
    let n0 = j0.tracks@.len() as int;
    let ts = j.tracks@;
    if k == n0 {
        lemma_tracks_prefix_durable(durable, j0, j, n0);
        assert(ts.subrange(n0, n0) =~= Seq::<JournalTrack>::empty());
        assert(ts.take(n0) == j0.tracks@);
    } else {
        lemma_tracks_replay(durable, j0, j, k - 1);
        let x = ts[k - 1];
        assert(ts.take(k).drop_last() =~= ts.take(k - 1));
        assert(ts.take(k).last() == x);
        assert(!durable_has_track(durable.tracks@, x.track_id@)) by {
            if durable_has_track(durable.tracks@, x.track_id@) {
                let m = choose|m: int| 0 <= m < durable.tracks@.len() && (#[trigger] durable.tracks@[m])@ == x.track_id@;
                assert(j0.tracks@[m] == ts[m]);
                assert(ts[m].track_id@ == x.track_id@);
            }
        }
        assert(ts.subrange(n0, k) =~= ts.subrange(n0, k - 1).push(x));
        lemma_tracks_after_push(j0.tracks@, ts.subrange(n0, k - 1), x);
        lemma_track_index(ts.take(k - 1), x.track_id@);
        assert forall|m: int| 0 <= m < ts.take(k - 1).len() implies (#[trigger] ts.take(k - 1)[m]).track_id@
            != x.track_id@ by {
            assert(ts.take(k - 1)[m] == ts[m]);
        }
        assert(ts.take(k - 1).push(x) =~= ts.take(k));
    }
}

proof fn lemma_tracks_prefix_durable(durable: DurableJournalState, j0: CaptureJournal, j: CaptureJournal, k: int)
    requires
        durable_of(durable, j0),
        journal_grew(j0, j),
        0 <= k <= j0.tracks@.len(),
    ensures
        new_tracks(durable.tracks@, j.tracks@.take(k)) == Seq::<JournalTrack>::empty(),
    decreases k,
{
    if k > 0 {
        lemma_tracks_prefix_durable(durable, j0, j, k - 1);
        let ts = j.tracks@;
        assert(ts.take(k).drop_last() =~= ts.take(k - 1));
        assert(ts.take(k).last() == ts[k - 1]);
        assert(j0.tracks@[k - 1] == ts[k - 1]);
        assert(durable.tracks@[k - 1]@ == ts[k - 1].track_id@);
        assert(durable_has_track(durable.tracks@, ts[k - 1].track_id@));
    }
}

/// Replaying the changed coverage entries onto the durable coverage gives
/// the journal's coverage: kept entries agree, changed ones are replaced in
/// place, new ones are appended.
proof fn lemma_coverage_replay(j0: CaptureJournal, j: CaptureJournal, k: int)
    requires
        journal_grew(j0, j),
        0 <= k <= j.sequence_coverage@.len(),
    ensures
        k <= j0.sequence_coverage@.len() ==> coverage_after(
            j0.sequence_coverage@,
            changed_coverage(j0.sequence_coverage@, j.sequence_coverage@.take(k)),
        ) == j.sequence_coverage@.take(k) + j0.sequence_coverage@.skip(k),
        k >= j0.sequence_coverage@.len() ==> coverage_after(
            j0.sequence_coverage@,
            changed_coverage(j0.sequence_coverage@, j.sequence_coverage@.take(k)),
        ) == j.sequence_coverage@.take(k),
    decreases k,
{
    let c0 = j0.sequence_coverage@;
    let c = j.sequence_coverage@;
    let n0 = c0.len() as int;
    if k == 0 {
        assert(c.take(0) =~= Seq::<SequenceCoverage>::empty());
        assert(c.take(0) + c0.skip(0) =~= c0);
        if n0 == 0 {
            assert(c0 =~= Seq::<SequenceCoverage>::empty());
        }
    } else {
        lemma_coverage_replay(j0, j, k - 1);
        let x = c[k - 1];
        let before = coverage_after(c0, changed_coverage(c0, c.take(k - 1)));
        assert(c.take(k).drop_last() =~= c.take(k - 1));
        assert(c.take(k).last() == x);
        lemma_coverage_after_push(c0, changed_coverage(c0, c.take(k - 1)), x);
        if k - 1 < n0 {
            // `x` stands where the durable entry of its track stands.
            assert forall|m: int| 0 <= m < c0.len() && m != k - 1 implies (#[trigger] c0[m]).track_id@
                != x.track_id@ by {
                assert(c[m].track_id == c0[m].track_id);
                if m < k - 1 {
                    assert(c[m].track_id@ != c[k - 1].track_id@);
                } else {
                    assert(c[k - 1].track_id@ != c[m].track_id@);
                }
            }
            assert(c[k - 1].track_id == c0[k - 1].track_id);
            lemma_coverage_index(c0, x.track_id@, k - 1);
            assert(before == c.take(k - 1) + c0.skip(k - 1));
            if durable_coverage_matches(c0, x) {
                assert(c0[k - 1] == x);
                assert(c.take(k) + c0.skip(k) =~= c.take(k - 1) + c0.skip(k - 1));
                if k == n0 {
                    assert(c0.skip(k) =~= Seq::<SequenceCoverage>::empty());
                    assert(c.take(k) + c0.skip(k) =~= c.take(k));
                }
            } else {
                assert forall|m: int| 0 <= m < before.len() && m != k - 1 implies (#[trigger] before[m]).track_id@
                    != x.track_id@ by {
                    if m < k - 1 {
                        assert(before[m] == c[m]);
                        assert(c[m].track_id@ != c[k - 1].track_id@);
                    } else {
                        assert(before[m] == c0[m]);
                    }
                }
                assert(before[k - 1] == c0[k - 1]);
                lemma_coverage_index(before, x.track_id@, k - 1);
                assert(before.update(k - 1, x) =~= c.take(k) + c0.skip(k));
                if k == n0 {
                    assert(c0.skip(k) =~= Seq::<SequenceCoverage>::empty());
                    assert(c.take(k) + c0.skip(k) =~= c.take(k));
                }
            }
        } else {
            assert(!durable_coverage_matches(c0, x)) by {
                assert forall|m: int| 0 <= m < c0.len() implies (#[trigger] c0[m]).track_id@ != x.track_id@ by {
                    assert(c[m].track_id == c0[m].track_id);
                    assert(c[m].track_id@ != c[k - 1].track_id@);
                }
                lemma_no_coverage_index(c0, x.track_id@);
            }
            if k - 1 == n0 {
                assert(c0.skip(n0) =~= Seq::<SequenceCoverage>::empty());
                assert(c.take(k - 1) + c0.skip(k - 1) =~= c.take(k - 1));
            }
            assert(before == c.take(k - 1));
            assert forall|m: int| 0 <= m < before.len() implies (#[trigger] before[m]).track_id@ != x.track_id@ by {
                assert(before[m] == c[m]);
                assert(c[m].track_id@ != c[k - 1].track_id@);
            }
            lemma_no_coverage_index(before, x.track_id@);
            assert(before.push(x) =~= c.take(k));
        }
    }
}

proof fn lemma_changed_coverage_from(durable: Seq<SequenceCoverage>, cs: Seq<SequenceCoverage>)
    requires
        coverage_starts_at_zero(cs),
    ensures
        coverage_starts_at_zero(changed_coverage(durable, cs)),
    decreases cs.len(),
{
    if cs.len() > 0 {
        assert(coverage_starts_at_zero(cs.drop_last())) by {
            assert forall|i: int| 0 <= i < cs.drop_last().len() implies (#[trigger] cs.drop_last()[i]).first_sequence
                == 0 by {
                assert(cs.drop_last()[i] == cs[i]);
            }
        }
        lemma_changed_coverage_from(durable, cs.drop_last());
        let rest = changed_coverage(durable, cs.drop_last());
        assert(cs.last() == cs[cs.len() - 1]);
        assert forall|i: int| 0 <= i < rest.push(cs.last()).len() implies (#[trigger] rest.push(
            cs.last(),
        )[i]).first_sequence == 0 by {
            if i < rest.len() {
                assert(rest.push(cs.last())[i] == rest[i]);
            }
        }
    }
}

proof fn lemma_revision_pairs(durable: DurableJournalState, j0: CaptureJournal, j: CaptureJournal, d: JournalDelta)
    requires
        durable_of(durable, j0),
        journal_grew(j0, j),
        delta_of(durable, j, d),
    ensures
        d.revision_transitions@ == revision_pairs(j, j0.track_configurations@.len() as int),
{
    assert(d.revision_transitions@ =~= revision_pairs(j, j0.track_configurations@.len() as int));
}

/// Durability of the append log: when a journal `j` has grown from `j0` the
/// way the recorder grows it, the delta record written from the durable
/// state of `j0` applies to any journal holding the same record as `j0` (as
/// one replayed from the log does), and the journal it gives back holds
/// exactly `j`.
pub proof fn law_delta_replays_from_the_same_record(
    j0: CaptureJournal,
    j: CaptureJournal,
    durable: DurableJournalState,
    d: JournalDelta,
    r0: CaptureJournal,
    replayed: CaptureJournal,
)
    requires
        durable_of(durable, j0),
        journal_grew(j0, j),
        delta_of(durable, j, d),
        same_journal(r0, j0),
    ensures
        delta_applies(r0, d),
        delta_applied(r0, d, replayed) ==> same_journal(replayed, j),
{
    lemma_tracks_replay(durable, j0, j, j.tracks@.len() as int);
    assert(j.tracks@.take(j.tracks@.len() as int) == j.tracks@);
    lemma_revision_pairs(durable, j0, j, d);
    lemma_coverage_replay(j0, j, j.sequence_coverage@.len() as int);
    assert(j.sequence_coverage@.take(j.sequence_coverage@.len() as int) == j.sequence_coverage@);
    lemma_changed_coverage_from(j0.sequence_coverage@, j.sequence_coverage@);
    lemma_first_difference(j0.timeline_gaps@, j.timeline_gaps@, 0);
    let fc = d.timeline_gap_start_index as int;
    if delta_applied(r0, d, replayed) {
        let p = d.gap_start_index as int;
        assert(replayed.sequence_gaps@ =~= j.sequence_gaps@) by {
            assert(j.sequence_gaps@ =~= j.sequence_gaps@.take(p) + j.sequence_gaps@.skip(p));
        }
        assert(same_gaps(replayed.timeline_gaps@, j.timeline_gaps@)) by {
            assert forall|i: int| 0 <= i < replayed.timeline_gaps@.len() implies same_gap(
                #[trigger] replayed.timeline_gaps@[i],
                j.timeline_gaps@[i],
            ) by {
                if i < fc {
                    assert(replayed.timeline_gaps@[i] == r0.timeline_gaps@[i]);
                    assert(same_gap(r0.timeline_gaps@[i], j0.timeline_gaps@[i]));
                } else {
                    assert(replayed.timeline_gaps@[i] == j.timeline_gaps@[i]);
                }
            }
        }
    }
}

/// Two journals holding the same values hold the same record.
proof fn lemma_same_journal_reflexive(j: CaptureJournal)
    ensures
        same_journal(j, j),
{
    assert forall|i: int| 0 <= i < j.timeline_gaps@.len() implies same_gap(
        #[trigger] j.timeline_gaps@[i],
        j.timeline_gaps@[i],
    ) by {}
}

/// Durability of the append log: when a journal `j` has grown from `j0` the
/// way the recorder grows it, the delta record written from the durable
/// state of `j0` applies to `j0`, and the journal it gives back holds
/// exactly `j`.
pub proof fn law_delta_replays_to_the_journal(
    j0: CaptureJournal,
    j: CaptureJournal,
    durable: DurableJournalState,
    d: JournalDelta,
    replayed: CaptureJournal,
)
    requires
        durable_of(durable, j0),
        journal_grew(j0, j),
        delta_of(durable, j, d),
    ensures
        delta_applies(j0, d),
        delta_applied(j0, d, replayed) ==> same_journal(replayed, j),
{
    lemma_same_journal_reflexive(j0);
    law_delta_replays_from_the_same_record(j0, j, durable, d, j0, replayed);
}

/// A journal as the recorder keeps it: tracks and coverage entries one per
/// track, coverage from sequence zero, and configurations and clock
/// mappings recorded in pairs.
pub open spec fn journal_consistent(j: CaptureJournal) -> bool {
    &&& distinct_tracks(j.tracks@)
    &&& distinct_coverage(j.sequence_coverage@)
    &&& coverage_starts_at_zero(j.sequence_coverage@)
    &&& j.track_configurations@.len() == j.clock_mappings@.len()
}

/// Replaying transitions one list after another is replaying the two lists
/// joined.
proof fn lemma_replay_split(
    c0: Seq<TrackConfigurationRevision>,
    m0: Seq<ClockMappingRevision>,
    s1: Seq<RecordingRevisionTransition>,
    s2: Seq<RecordingRevisionTransition>,
    c1: Seq<TrackConfigurationRevision>,
    m1: Seq<ClockMappingRevision>,
)
    requires
        transitions_replayed(c0, m0, s1) == Some((c1, m1)),
    ensures
        transitions_replayed(c0, m0, s1 + s2) == transitions_replayed(c1, m1, s2),
    decreases s1.len(),
{
    if s1.len() == 0 {
        assert(s1 + s2 =~= s2);
    } else {
        assert((s1 + s2)[0] == s1[0]);
        assert((s1 + s2).drop_first() =~= s1.drop_first() + s2);
        lemma_replay_split(
            c0.push(s1[0].configuration),
            m0.push(s1[0].clock_mapping),
            s1.drop_first(),
            s2,
            c1,
            m1,
        );
    }
}

/// What a replay appends: the transitions' configurations and mappings, in
/// order, after those it started from.
proof fn lemma_replay_appends(
    c0: Seq<TrackConfigurationRevision>,
    m0: Seq<ClockMappingRevision>,
    ts: Seq<RecordingRevisionTransition>,
    c1: Seq<TrackConfigurationRevision>,
    m1: Seq<ClockMappingRevision>,
)
    requires
        transitions_replayed(c0, m0, ts) == Some((c1, m1)),
    ensures
        c1.len() == c0.len() + ts.len(),
        m1.len() == m0.len() + ts.len(),
        c1.take(c0.len() as int) == c0,
        m1.take(m0.len() as int) == m0,
        forall|k: int| 0 <= k < ts.len() ==> c1[c0.len() + k] == (#[trigger] ts[k]).configuration,
        forall|k: int| 0 <= k < ts.len() ==> m1[m0.len() + k] == (#[trigger] ts[k]).clock_mapping,
    decreases ts.len(),
{
    if ts.len() == 0 {
        assert(c1.take(c0.len() as int) =~= c0);
        assert(m1.take(m0.len() as int) =~= m0);
    } else {
        let c = c0.push(ts[0].configuration);
        let m = m0.push(ts[0].clock_mapping);
        lemma_replay_appends(c, m, ts.drop_first(), c1, m1);
        assert(c1.take(c0.len() as int) =~= c.take(c0.len() as int));
        assert(m1.take(m0.len() as int) =~= m.take(m0.len() as int));
        assert forall|k: int| 0 <= k < ts.len() implies c1[c0.len() + k] == (#[trigger] ts[k]).configuration by {
            if k > 0 {
                assert(ts.drop_first()[k - 1] == ts[k]);
            } else {
                assert(c1.take(c.len() as int)[c0.len() as int] == c1[c0.len() as int]);
            }
        }
        assert forall|k: int| 0 <= k < ts.len() implies m1[m0.len() + k] == (#[trigger] ts[k]).clock_mapping by {
            if k > 0 {
                assert(ts.drop_first()[k - 1] == ts[k]);
            } else {
                assert(m1.take(m.len() as int)[m0.len() as int] == m1[m0.len() as int]);
            }
        }
    }
}

/// A consistent journal has grown from itself: persisting it twice with
/// nothing observed in between writes a record that changes nothing.
pub proof fn law_journal_growth_is_reflexive(j: CaptureJournal)
    requires
        journal_consistent(j),
    ensures
        journal_grew(j, j),
{
    assert(revision_pairs(j, j.track_configurations@.len() as int) =~= Seq::<RecordingRevisionTransition>::empty());
    assert(j.tracks@.take(j.tracks@.len() as int) =~= j.tracks@);
}

/// Growth composes: a journal that grew from `b`, which grew from `a`, grew
/// from `a`; the record written from `a`'s durable state covers every
/// operation since.
pub proof fn law_journal_growth_is_transitive(a: CaptureJournal, b: CaptureJournal, c: CaptureJournal)
    requires
        journal_grew(a, b),
        journal_grew(b, c),
    ensures
        journal_grew(a, c),
{
    let na = a.tracks@.len() as int;
    let nb = b.tracks@.len() as int;
    assert(c.tracks@.take(na) =~= c.tracks@.take(nb).take(na));

    let ca = a.track_configurations@.len() as int;
    let cb = b.track_configurations@.len() as int;
    let pb = revision_pairs(b, ca);
    let pc = revision_pairs(c, cb);
    lemma_replay_appends(b.track_configurations@, b.clock_mappings@, pc, c.track_configurations@, c.clock_mappings@);
    assert(revision_pairs(c, ca) =~= pb + pc) by {
        assert forall|k: int| 0 <= k < cb - ca implies #[trigger] revision_pairs(c, ca)[k] == pb[k] by {
            assert(c.track_configurations@.take(cb)[ca + k] == c.track_configurations@[ca + k]);
            assert(c.clock_mappings@.take(cb)[ca + k] == c.clock_mappings@[ca + k]);
        }
        assert forall|k: int| cb - ca <= k < revision_pairs(c, ca).len() implies #[trigger] revision_pairs(c, ca)[k]
            == pc[k - (cb - ca)] by {}
    }
    lemma_replay_split(
        a.track_configurations@,
        a.clock_mappings@,
        pb,
        pc,
        b.track_configurations@,
        b.clock_mappings@,
    );

    assert forall|i: int| 0 <= i < a.sequence_coverage@.len() implies {
        &&& (#[trigger] c.sequence_coverage@[i]).track_id == a.sequence_coverage@[i].track_id
        &&& c.sequence_coverage@[i].first_sequence == a.sequence_coverage@[i].first_sequence
    } by {
        assert(c.sequence_coverage@[i].track_id == b.sequence_coverage@[i].track_id);
        assert(b.sequence_coverage@[i].track_id == a.sequence_coverage@[i].track_id);
    }

    let ga = previous_index(a.sequence_gaps@.len() as int);
    let gb = previous_index(b.sequence_gaps@.len() as int);
    assert(c.sequence_gaps@.take(ga) =~= c.sequence_gaps@.take(gb).take(ga));
    assert(b.sequence_gaps@.take(ga) =~= b.sequence_gaps@.take(gb).take(ga));
}

/// What recording a sequence gap leaves of the kept gap details: never
/// fewer, and all but the last unchanged.
proof fn lemma_gap_record_keeps_prefix(
    old_gaps: Seq<SequenceGap>,
    old_overflow: Option<SequenceGapOverflow>,
    gaps: Seq<SequenceGap>,
    overflow: Option<SequenceGapOverflow>,
    track: Seq<char>,
    first_sequence: u64,
    next_sequence: u64,
)
    requires
        gap_record_updated(old_gaps, old_overflow, gaps, overflow, track, first_sequence, next_sequence),
    ensures
        old_gaps.len() <= gaps.len(),
        gaps.take(previous_index(old_gaps.len() as int)) == old_gaps.take(previous_index(old_gaps.len() as int)),
{
    let p = previous_index(old_gaps.len() as int);
    if gaps.len() == old_gaps.len() + 1 && gaps.drop_last() == old_gaps {
        assert(gaps.take(p) =~= gaps.drop_last().take(p));
    } else {
        assert(gaps.take(p) =~= old_gaps.take(p));
    }
}

/// Recording dropped sequences keeps a consistent journal consistent and
/// grows it the way the append log requires.
pub proof fn law_gap_record_keeps_growth(
    old_j: CaptureJournal,
    j: CaptureJournal,
    track: Seq<char>,
    first_sequence: u64,
    next_sequence: u64,
)
    requires
        journal_consistent(old_j),
        gap_recorded(old_j, j, track, first_sequence, next_sequence),
    ensures
        journal_consistent(j),
        journal_grew(old_j, j),
{
    lemma_gap_record_keeps_prefix(
        old_j.sequence_gaps@,
        old_j.sequence_gap_overflow,
        j.sequence_gaps@,
        j.sequence_gap_overflow,
        track,
        first_sequence,
        next_sequence,
    );
    law_journal_growth_is_reflexive(old_j);
}

/// An accepted revision transition keeps a consistent journal consistent
/// and grows it the way the append log requires.
pub proof fn law_transition_keeps_growth(old_j: CaptureJournal, j: CaptureJournal, transition: RecordingRevisionTransition)
    requires
        journal_consistent(old_j),
        transition_accepted(old_j, transition.configuration, transition.clock_mapping),
        transition_recorded(old_j, j, transition),
    ensures
        journal_consistent(j),
        journal_grew(old_j, j),
{
    law_journal_growth_is_reflexive(old_j);
    let n = old_j.track_configurations@.len() as int;
    let pairs = revision_pairs(j, n);
    assert(pairs.len() == 1);
    assert(pairs[0] == transition);
    assert(pairs.drop_first() =~= Seq::<RecordingRevisionTransition>::empty());
    assert(transitions_replayed(
        old_j.track_configurations@.push(transition.configuration),
        old_j.clock_mappings@.push(transition.clock_mapping),
        pairs.drop_first(),
    ) == Some((j.track_configurations@, j.clock_mappings@)));
}

/// An accepted timeline gap keeps a consistent journal consistent and grows
/// it the way the append log requires: timeline gaps are sent from the first
/// one that changed.
pub proof fn law_timeline_gap_keeps_growth(old_j: CaptureJournal, j: CaptureJournal, gap: AudioGap)
    requires
        journal_consistent(old_j),
        timeline_gap_recorded(old_j, j, gap),
    ensures
        journal_consistent(j),
        journal_grew(old_j, j),
{
    law_journal_growth_is_reflexive(old_j);
}

/// Observing a frame keeps a consistent journal consistent and grows it the
/// way the append log requires, when a track seen for the first time starts
/// at sequence zero (coverage from another sequence is refused on replay).
pub proof fn law_frame_observation_keeps_growth(
    old_j: CaptureJournal,
    j: CaptureJournal,
    track: Seq<char>,
    sample_rate_hz: u32,
    channels: u16,
    sequence: u64,
    start_ms: u64,
)
    requires
        journal_consistent(old_j),
        frame_observed(old_j, j, track, sample_rate_hz, channels, sequence, start_ms),
        coverage_index(old_j.sequence_coverage@, track) is None ==> sequence == 0,
    ensures
        journal_consistent(j),
        journal_grew(old_j, j),
{
    law_journal_growth_is_reflexive(old_j);
    let t0 = old_j.tracks@;
    let t = j.tracks@;
    lemma_track_index(t0, track);
    if journal_track_index(t0, track) is None {
        assert(t.take(t0.len() as int) =~= t.drop_last());
        assert forall|a: int, b: int| 0 <= a < b < t.len() implies (#[trigger] t[a]).track_id@
            != (#[trigger] t[b]).track_id@ by {
            if b == t.len() - 1 {
                assert(t[a] == t0[a]);
            } else {
                assert(t[a] == t0[a]);
                assert(t[b] == t0[b]);
            }
        }
    }
    assert(revision_pairs(j, old_j.track_configurations@.len() as int) =~= Seq::<RecordingRevisionTransition>::empty());
    let c0 = old_j.sequence_coverage@;
    let c = j.sequence_coverage@;
    lemma_coverage_index_from(c0, track, 0);
    match coverage_index(c0, track) {
        None => {
            assert forall|a: int, b: int| 0 <= a < b < c.len() implies (#[trigger] c[a]).track_id@
                != (#[trigger] c[b]).track_id@ by {
                if b == c.len() - 1 {
                    assert(c[a] == c0[a]);
                } else {
                    assert(c[a] == c0[a]);
                    assert(c[b] == c0[b]);
                }
            }
            assert forall|i: int| 0 <= i < c.len() implies (#[trigger] c[i]).first_sequence == 0 by {
                if i < c0.len() {
                    assert(c[i] == c0[i]);
                }
            }
            assert forall|i: int| 0 <= i < c0.len() implies {
                &&& (#[trigger] c[i]).track_id == c0[i].track_id
                &&& c[i].first_sequence == c0[i].first_sequence
            } by {
                assert(c[i] == c.drop_last()[i]);
            }
        },
        Some(k) => {
            let covered = c0[k];
            if sequence > covered.last_sequence && sequence != saturating(covered.last_sequence as int, 1) {
                lemma_gap_record_keeps_prefix(
                    old_j.sequence_gaps@,
                    old_j.sequence_gap_overflow,
                    j.sequence_gaps@,
                    j.sequence_gap_overflow,
                    track,
                    (covered.last_sequence + 1) as u64,
                    sequence,
                );
            }
            assert forall|a: int, b: int| 0 <= a < b < c.len() implies (#[trigger] c[a]).track_id@
                != (#[trigger] c[b]).track_id@ by {
                assert(c[a].track_id == c0[a].track_id);
                assert(c[b].track_id == c0[b].track_id);
            }
            assert forall|i: int| 0 <= i < c.len() implies (#[trigger] c[i]).first_sequence == 0 by {
                assert(c[i].first_sequence == c0[i].first_sequence);
            }
        },
    }
}

/// Marking the journal degraded keeps a consistent journal consistent and
/// grows it the way the append log requires.
pub proof fn law_degradation_keeps_growth(old_j: CaptureJournal, j: CaptureJournal)
    requires
        journal_consistent(old_j),
        j == (CaptureJournal { sink_degraded: true, ..old_j }),
    ensures
        journal_consistent(j),
        journal_grew(old_j, j),
{
    law_journal_growth_is_reflexive(old_j);
}

/// Every input the recording takes, accepted or refused, keeps its journal
/// consistent and grows it the way the append log requires; with growth
/// composing, the record persisted next replays to the journal of that
/// moment.
pub proof fn law_every_input_keeps_growth(
    l0: StreamLedger,
    j0: CaptureJournal,
    input: RecordingInput,
    l: StreamLedger,
    j: CaptureJournal,
    r: Result<InputWrite, String>,
)
    requires
        journal_consistent(j0),
        input_taken(l0, j0, input, l, j, r),
    ensures
        journal_consistent(j),
        journal_grew(j0, j),
{
    law_journal_growth_is_reflexive(j0);
    if l0.failure is None {
        match input {
            RecordingInput::PreparedFrame(f) => {
                if f.metadata.session_id@ == j0.session_id@ && !(f.metadata.sequence != 0 && coverage_index(
                    j0.sequence_coverage@,
                    f.metadata.track_id@,
                ) is None) {
                    law_frame_observation_keeps_growth(
                        j0,
                        j,
                        f.metadata.track_id@,
                        f.metadata.sample_rate_hz,
                        f.metadata.channels,
                        f.metadata.sequence,
                        f.metadata.start_ms,
                    );
                }
            },
            RecordingInput::RevisionTransition(t) => {
                if r is Ok {
                    law_transition_keeps_growth(j0, j, t);
                }
            },
            RecordingInput::Gap(g) => {
                if r is Ok {
                    law_timeline_gap_keeps_growth(j0, j, g);
                }
            },
        }
    }
}

/// The append log as the recorder writes it: a header holding the first
/// journal, then for each persist the delta record from the durable state
/// of the journal persisted before to the journal persisted then, each
/// journal grown from the one before.
pub open spec fn persisted_log(
    lines: Seq<JournalLine>,
    journals: Seq<CaptureJournal>,
    durables: Seq<DurableJournalState>,
) -> bool {
    &&& journals.len() >= 1
    &&& lines.len() == journals.len()
    &&& durables.len() == journals.len()
    &&& lines[0].text@.len() != 0
    &&& lines[0].record == Ok::<JournalRecord, String>(JournalRecord::Header(journals[0]))
    &&& forall|i: int| 0 <= i < journals.len() ==> durable_of(#[trigger] durables[i], journals[i])
    &&& forall|i: int| 1 <= i < journals.len() ==> {
        &&& (#[trigger] lines[i]).text@.len() != 0
        &&& lines[i].record matches Ok(JournalRecord::Delta(d)) && delta_of(durables[i - 1], journals[i], d)
        &&& journal_grew(journals[i - 1], journals[i])
    }
}

proof fn lemma_persisted_tail(
    lines: Seq<JournalLine>,
    journals: Seq<CaptureJournal>,
    durables: Seq<DurableJournalState>,
    ends_with_newline: bool,
    k: int,
    state: CaptureJournal,
    out: CaptureJournal,
)
    requires
        persisted_log(lines, journals, durables),
        1 <= k <= journals.len(),
        same_journal(state, journals[k - 1]),
        replays_to(lines, ends_with_newline, k, Some(state), Some(out)),
    ensures
        same_journal(out, journals.last()),
    decreases journals.len() - k,
{
    if k < journals.len() {
        assert(lines[k].text@.len() != 0);
        let d = lines[k].record->Ok_0->Delta_0;
        assert(delta_of(durables[k - 1], journals[k], d));
        assert(durable_of(durables[k - 1], journals[k - 1]));
        let j2 = choose|j2: CaptureJournal| delta_applied(state, d, j2) && replays_to(lines, ends_with_newline, k + 1, Some(j2), Some(out));
        law_delta_replays_from_the_same_record(journals[k - 1], journals[k], durables[k - 1], d, state, j2);
        lemma_persisted_tail(lines, journals, durables, ends_with_newline, k + 1, j2, out);
    }
}

/// Read-back of the append log: whatever a log written by the recorder
/// replays to holds exactly the journal persisted last.
pub proof fn law_persisted_log_replays_to_the_last_journal(
    lines: Seq<JournalLine>,
    journals: Seq<CaptureJournal>,
    durables: Seq<DurableJournalState>,
    ends_with_newline: bool,
    out: CaptureJournal,
)
    requires
        persisted_log(lines, journals, durables),
        replays_to(lines, ends_with_newline, 0, None, Some(out)),
    ensures
        same_journal(out, journals.last()),
{
    assert(replays_to(lines, ends_with_newline, 1, Some(journals[0]), Some(out)));
    lemma_same_journal_reflexive(journals[0]);
    lemma_persisted_tail(lines, journals, durables, ends_with_newline, 1, journals[0], out);
}

} // verus!
