use std::sync::atomic::Ordering;
use yap_capture::clock::TimelineError;
use yap_capture::frame::GapCause;
use yap_capture::loss::{
    assemble_slot_snapshot, decode_cause, encode_cause, LossAccumulator, LossSnapshot,
    RawLossRun, TryDrain, LOSS_RUN_CAPACITY, REGISTRATION_TICKET_CAPACITY,
};

fn concurrently_record(
    records: &[(u64, u64, GapCause)],
) -> Result<Option<LossSnapshot>, TimelineError> {
    let losses = LossAccumulator::new();
    for (position, dropped, cause) in records {
        losses.record(*position, *dropped, *cause);
    }
    losses.drain()
}

fn raw(position: u64, dropped: u64, cause: u8) -> Option<RawLossRun> {
    Some(RawLossRun {
        source_position_frames: position,
        dropped_frames: dropped,
        cause,
    })
}

#[test]
fn saturated_handoff_reports_the_exact_dropped_interval() {
    let losses = LossAccumulator::new();
    losses.record(320, 160, GapCause::CallbackPoolExhausted);
    losses.record(480, 320, GapCause::CallbackPoolExhausted);

    assert_eq!(
        losses.drain(),
        Ok(Some(LossSnapshot {
            first_source_position_frames: 320,
            dropped_frames: 480,
            cause: GapCause::CallbackPoolExhausted,
            generation: 0,
        }))
    );
}

#[test]
fn unwound_ticket_is_terminal_invalid_instead_of_pending_forever() {
    let losses = LossAccumulator::new();
    {
        // A callback that unwinds after registering drops its ticket uncommitted.
        let ticket = losses.begin_registration();
        assert!(ticket.is_some());
    }

    assert_eq!(losses.try_drain(), Err(TimelineError::InvalidTiming));
}

#[test]
fn reversed_position_contiguous_writers_report_the_exact_union() {
    assert_eq!(
        concurrently_record(&[
            (480, 320, GapCause::CallbackPoolExhausted),
            (320, 160, GapCause::CallbackPoolExhausted),
        ]),
        Ok(Some(LossSnapshot {
            first_source_position_frames: 320,
            dropped_frames: 480,
            cause: GapCause::CallbackPoolExhausted,
            generation: 0,
        }))
    );
}

#[test]
fn non_contiguous_writers_never_fabricate_the_missing_interval() {
    assert_eq!(
        concurrently_record(&[
            (320, 160, GapCause::CallbackPoolExhausted),
            (640, 160, GapCause::CallbackPoolExhausted),
        ]),
        Err(TimelineError::InvalidTiming)
    );
}

#[test]
fn overlapping_writers_invalidate_the_snapshot() {
    assert_eq!(
        concurrently_record(&[
            (320, 320, GapCause::CallbackPoolExhausted),
            (480, 320, GapCause::CallbackPoolExhausted),
        ]),
        Err(TimelineError::InvalidTiming)
    );
}

#[test]
fn different_writer_causes_invalidate_the_snapshot() {
    assert_eq!(
        concurrently_record(&[
            (320, 160, GapCause::CallbackPoolExhausted),
            (480, 160, GapCause::SinkUnavailable),
        ]),
        Err(TimelineError::InvalidTiming)
    );
}

#[test]
fn overlap_and_hole_cannot_cancel_into_an_exact_span() {
    assert_eq!(
        concurrently_record(&[
            (0, 10, GapCause::CallbackPoolExhausted),
            (5, 10, GapCause::CallbackPoolExhausted),
            (20, 5, GapCause::CallbackPoolExhausted),
        ]),
        Err(TimelineError::InvalidTiming)
    );
}

#[test]
fn reversed_order_contiguous_multi_writer_run_is_exact() {
    assert_eq!(
        concurrently_record(&[
            (20, 5, GapCause::DeviceDiscontinuity),
            (10, 10, GapCause::DeviceDiscontinuity),
            (0, 10, GapCause::DeviceDiscontinuity),
        ]),
        Ok(Some(LossSnapshot {
            first_source_position_frames: 0,
            dropped_frames: 25,
            cause: GapCause::DeviceDiscontinuity,
            generation: 0,
        }))
    );
}

#[test]
fn loss_run_capacity_exhaustion_is_invalid_timing() {
    let losses = LossAccumulator::new();
    let capacity = u64::try_from(LOSS_RUN_CAPACITY).unwrap();
    for position in 0..=capacity {
        losses.record(position, 1, GapCause::CallbackPoolExhausted);
    }

    assert_eq!(losses.drain(), Err(TimelineError::InvalidTiming));
}

#[test]
fn checked_end_and_dropped_sum_overflow_invalidate_the_snapshot() {
    let end_overflow = LossAccumulator::new();
    end_overflow.record(u64::MAX - 1, 2, GapCause::DeviceDiscontinuity);
    assert_eq!(end_overflow.drain(), Err(TimelineError::InvalidTiming));

    let sum_overflow = LossAccumulator::new();
    sum_overflow.record(0, u64::MAX, GapCause::DeviceDiscontinuity);
    sum_overflow.record(0, 1, GapCause::DeviceDiscontinuity);
    assert_eq!(sum_overflow.drain(), Err(TimelineError::InvalidTiming));
}

#[test]
fn registration_counter_exhaustion_is_permanently_invalid() {
    let losses = LossAccumulator::new();
    losses.registration_started.store(u64::MAX, Ordering::Relaxed);

    losses.record(0, 1, GapCause::CallbackPoolExhausted);
    assert_eq!(losses.drain(), Err(TimelineError::InvalidTiming));

    losses.record(1, 1, GapCause::CallbackPoolExhausted);
    assert_eq!(losses.drain(), Err(TimelineError::InvalidTiming));
}

#[test]
fn generation_exhaustion_is_terminal_without_reusing_slots() {
    let losses = LossAccumulator::new();
    losses.active_generation.store(u64::MAX, Ordering::SeqCst);

    assert_eq!(losses.try_drain(), Err(TimelineError::InvalidTiming));
    assert_eq!(losses.active_generation.load(Ordering::SeqCst), u64::MAX);

    let registration_hook_called = std::sync::atomic::AtomicBool::new(false);
    let generation_hook_called = std::sync::atomic::AtomicBool::new(false);
    losses.record_with_registration_hooks(
        0,
        1,
        GapCause::CallbackPoolExhausted,
        || registration_hook_called.store(true, Ordering::SeqCst),
        || generation_hook_called.store(true, Ordering::SeqCst),
    );

    assert!(!registration_hook_called.load(Ordering::SeqCst));
    assert!(!generation_hook_called.load(Ordering::SeqCst));
    assert_eq!(losses.registration_started.load(Ordering::SeqCst), 0);
    assert_eq!(losses.slots[0].claimed_runs.load(Ordering::SeqCst), 0);
    assert_eq!(losses.slots[1].claimed_runs.load(Ordering::SeqCst), 0);
    assert_eq!(losses.try_drain(), Err(TimelineError::InvalidTiming));
    assert_eq!(losses.drain(), Err(TimelineError::InvalidTiming));
    assert_eq!(losses.active_generation.load(Ordering::SeqCst), u64::MAX);
}

#[test]
fn generation_can_advance_to_max_once_before_becoming_terminal() {
    let losses = LossAccumulator::new();
    losses.active_generation.store(u64::MAX - 1, Ordering::SeqCst);
    losses.record(0, 1, GapCause::CallbackPoolExhausted);

    assert_eq!(
        losses.drain(),
        Ok(Some(LossSnapshot {
            first_source_position_frames: 0,
            dropped_frames: 1,
            cause: GapCause::CallbackPoolExhausted,
            generation: u64::MAX - 1,
        }))
    );
    assert_eq!(losses.active_generation.load(Ordering::SeqCst), u64::MAX);

    losses.record(1, 1, GapCause::CallbackPoolExhausted);
    assert_eq!(losses.try_drain(), Err(TimelineError::InvalidTiming));
    assert_eq!(losses.active_generation.load(Ordering::SeqCst), u64::MAX);
}

#[test]
fn sustained_loss_past_run_and_ticket_capacity_never_panics_or_hangs() {
    let losses = LossAccumulator::new();
    let records = u64::try_from(REGISTRATION_TICKET_CAPACITY * 3).unwrap();

    for position in 0..records {
        losses.record(position, 1, GapCause::CallbackPoolExhausted);
    }

    assert_eq!(losses.drain(), Err(TimelineError::InvalidTiming));
    losses.record(records, 1, GapCause::CallbackPoolExhausted);
    assert_eq!(
        losses.drain(),
        Ok(Some(LossSnapshot {
            first_source_position_frames: records,
            dropped_frames: 1,
            cause: GapCause::CallbackPoolExhausted,
            generation: 1,
        }))
    );
}

#[test]
fn concurrent_try_drain_returns_pending_while_the_coordinator_is_contended() {
    let losses = LossAccumulator::new();
    assert!(losses.coordinator.try_acquire());

    assert_eq!(losses.try_drain(), Ok(TryDrain::Pending));
}

#[test]
fn draining_an_empty_accumulator_returns_none() {
    let losses = LossAccumulator::new();

    assert_eq!(losses.drain(), Ok(None));
    losses.record(10, 0, GapCause::SinkUnavailable);
    assert_eq!(losses.drain(), Ok(None));
}

#[test]
fn causes_round_trip_through_their_stored_byte() {
    for cause in [
        GapCause::CallbackPoolExhausted,
        GapCause::OversizedCallback,
        GapCause::DeviceDiscontinuity,
        GapCause::SinkUnavailable,
    ] {
        assert_ne!(encode_cause(cause), 0);
        assert_eq!(decode_cause(encode_cause(cause)), Some(cause));
    }
    assert_eq!(encode_cause(GapCause::DeviceDiscontinuity), 3);
    assert_eq!(decode_cause(0), None);
    assert_eq!(decode_cause(5), None);
}

#[test]
fn slot_cells_reduce_to_the_exact_union_in_any_order() {
    let mut published = vec![None; LOSS_RUN_CAPACITY];
    published[0] = raw(30, 5, 4);
    published[1] = raw(10, 20, 4);
    assert_eq!(
        assemble_slot_snapshot(2, false, &published, 9),
        Ok(Some(LossSnapshot {
            first_source_position_frames: 10,
            dropped_frames: 25,
            cause: GapCause::SinkUnavailable,
            generation: 9,
        }))
    );
}

#[test]
fn slot_cells_out_of_claim_or_unknown_cause_are_invalid() {
    let mut published = vec![None; LOSS_RUN_CAPACITY];
    published[0] = raw(0, 5, 1);
    assert_eq!(
        assemble_slot_snapshot(0, false, &published, 0),
        Err(TimelineError::InvalidTiming)
    );
    assert_eq!(
        assemble_slot_snapshot(2, false, &published, 0),
        Err(TimelineError::InvalidTiming)
    );
    assert_eq!(
        assemble_slot_snapshot(1, true, &published, 0),
        Err(TimelineError::InvalidTiming)
    );
    let mut unknown = vec![None; LOSS_RUN_CAPACITY];
    unknown[0] = raw(0, 5, 9);
    assert_eq!(
        assemble_slot_snapshot(1, false, &unknown, 0),
        Err(TimelineError::InvalidTiming)
    );
    assert_eq!(
        assemble_slot_snapshot(0, false, &vec![None; LOSS_RUN_CAPACITY], 0),
        Ok(None)
    );
}

#[test]
fn ticket_capacity_exhaustion_preserves_a_held_callback_across_the_old_reset_window() {
    let losses = LossAccumulator::new();
    let capacity = u64::try_from(REGISTRATION_TICKET_CAPACITY).unwrap();
    for position in 0..capacity - 1 {
        losses.record(position, 1, GapCause::CallbackPoolExhausted);
    }

    // The held callback has taken its ticket; the coordinator runs while it
    // is still registering.
    let mut while_held = Vec::new();
    losses.record_with_registration_hooks(
        capacity - 1,
        1,
        GapCause::CallbackPoolExhausted,
        || {
            losses.record(capacity, 1, GapCause::CallbackPoolExhausted);
            while_held.push((
                losses.try_drain(),
                losses.active_generation.load(Ordering::SeqCst),
            ));
            while_held.push((
                losses.try_drain(),
                losses.active_generation.load(Ordering::SeqCst),
            ));
        },
        || {},
    );
    assert_eq!(
        while_held,
        vec![(Ok(TryDrain::Pending), 1), (Ok(TryDrain::Pending), 1)]
    );

    assert_eq!(losses.try_drain(), Err(TimelineError::InvalidTiming));
    assert_eq!(losses.registration_started.load(Ordering::SeqCst), capacity);
    assert_eq!(losses.registration_drained.load(Ordering::SeqCst), capacity);
    assert_eq!(
        losses.registration_completion_tickets
            [(capacity - 1) as usize % REGISTRATION_TICKET_CAPACITY]
            .load(Ordering::SeqCst),
        capacity
    );

    losses.record(capacity, 1, GapCause::CallbackPoolExhausted);
    assert_eq!(
        losses.try_drain(),
        Ok(TryDrain::Snapshot(LossSnapshot {
            first_source_position_frames: capacity - 1,
            dropped_frames: 2,
            cause: GapCause::CallbackPoolExhausted,
            generation: 1,
        }))
    );
    assert_eq!(losses.try_drain(), Ok(TryDrain::Empty));
}

#[test]
fn try_drain_returns_pending_without_waiting_for_a_pre_target_registration() {
    let losses = LossAccumulator::new();
    losses.record(0, 10, GapCause::CallbackPoolExhausted);

    let mut pending = None;
    losses.record_with_registration_hooks(
        10,
        10,
        GapCause::CallbackPoolExhausted,
        || pending = Some(losses.try_drain()),
        || {},
    );

    assert_eq!(pending, Some(Ok(TryDrain::Pending)));
    assert_eq!(
        losses.try_drain(),
        Ok(TryDrain::Snapshot(LossSnapshot {
            first_source_position_frames: 0,
            dropped_frames: 10,
            cause: GapCause::CallbackPoolExhausted,
            generation: 0,
        }))
    );
}

#[test]
fn try_drain_does_not_flip_a_second_generation_while_pending() {
    let losses = LossAccumulator::new();

    let mut while_registering = Vec::new();
    losses.record_with_registration_hooks(
        0,
        10,
        GapCause::CallbackPoolExhausted,
        || {
            while_registering.push((
                losses.try_drain(),
                losses.active_generation.load(Ordering::SeqCst),
            ));
            while_registering.push((
                losses.try_drain(),
                losses.active_generation.load(Ordering::SeqCst),
            ));
        },
        || {},
    );

    assert_eq!(
        while_registering,
        vec![(Ok(TryDrain::Pending), 1), (Ok(TryDrain::Pending), 1)]
    );
    assert_eq!(losses.try_drain(), Ok(TryDrain::Empty));
}
