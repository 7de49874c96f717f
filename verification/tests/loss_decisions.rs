use yap_capture::clock::TimelineError;
use yap_capture::frame::GapCause;
use yap_capture::loss::{
    admits_loss, decide_drain, decide_registration, DrainEnvironment, LossSnapshot, LossState,
    RegistrationReadiness, RegistrationStep, TryDrain,
};

fn fresh() -> LossState {
    LossState {
        active_generation: 0,
        registration_started: 0,
        registration_drained: 0,
        invalid: false,
        registration_counter_exhausted: false,
        generation_exhausted: false,
        terminal_invalid_reported: false,
        pending: None,
    }
}

fn alone(state: &LossState, snapshot: Result<Option<LossSnapshot>, TimelineError>) -> DrainEnvironment {
    DrainEnvironment {
        coordinator_contended: false,
        readiness: RegistrationReadiness::Ready,
        slot_present: true,
        writers_busy: false,
        invalid_at_settle: state.invalid,
        counter_exhausted_at_settle: state.registration_counter_exhausted,
        snapshot,
    }
}

#[test]
fn an_empty_generation_drains_empty_and_advances() {
    let state = fresh();
    let (result, next) = decide_drain(state, alone(&state, Ok(None)));
    assert_eq!(result, Ok(TryDrain::Empty));
    assert_eq!(next.active_generation, 1);
    assert_eq!(next.pending, None);
}

#[test]
fn a_drain_reports_its_slot_snapshot() {
    let state = LossState { registration_started: 3, ..fresh() };
    let snapshot = LossSnapshot {
        first_source_position_frames: 10,
        dropped_frames: 5,
        cause: GapCause::CallbackPoolExhausted,
        generation: 0,
    };
    let (result, next) = decide_drain(state, alone(&state, Ok(Some(snapshot))));
    assert_eq!(result, Ok(TryDrain::Snapshot(snapshot)));
    assert_eq!(next.registration_drained, 3);
}

#[test]
fn invalidation_spoils_exactly_the_next_drain() {
    let state = LossState { invalid: true, ..fresh() };
    let (first, after) = decide_drain(state, alone(&state, Ok(None)));
    assert_eq!(first, Err(TimelineError::InvalidTiming));
    assert!(!after.invalid);
    let (second, _) = decide_drain(after, alone(&after, Ok(None)));
    assert_eq!(second, Ok(TryDrain::Empty));
}

#[test]
fn unfinished_registrations_keep_the_drain_pending_on_the_same_generation() {
    let state = LossState { registration_started: 1, ..fresh() };
    let waiting = DrainEnvironment { readiness: RegistrationReadiness::Pending, ..alone(&state, Ok(None)) };
    let (first, after) = decide_drain(state, waiting);
    assert_eq!(first, Ok(TryDrain::Pending));
    assert_eq!(after.active_generation, 1);
    assert_eq!(after.pending.map(|p| p.generation), Some(0));
    let (second, resumed) = decide_drain(after, alone(&after, Ok(None)));
    assert_eq!(second, Ok(TryDrain::Empty));
    assert_eq!(resumed.active_generation, 1);
}

#[test]
fn an_aborted_registration_spoils_one_generation() {
    let state = LossState { registration_started: 2, ..fresh() };
    let aborted = DrainEnvironment { readiness: RegistrationReadiness::Invalid, ..alone(&state, Ok(None)) };
    let (result, after) = decide_drain(state, aborted);
    assert_eq!(result, Err(TimelineError::InvalidTiming));
    assert_eq!(after.registration_drained, 2);
    assert!(!after.terminal_invalid_reported);
    let (next, _) = decide_drain(after, alone(&after, Ok(None)));
    assert_eq!(next, Ok(TryDrain::Empty));
}

#[test]
fn counter_and_generation_exhaustion_are_terminal() {
    let state = LossState { registration_counter_exhausted: true, ..fresh() };
    let (first, after) = decide_drain(state, alone(&state, Ok(None)));
    assert_eq!(first, Err(TimelineError::InvalidTiming));
    assert!(after.terminal_invalid_reported);
    assert_eq!(decide_drain(after, alone(&after, Ok(None))), (Err(TimelineError::InvalidTiming), after));

    let last = LossState { active_generation: u64::MAX, ..fresh() };
    let (result, exhausted) = decide_drain(last, alone(&last, Ok(None)));
    assert_eq!(result, Err(TimelineError::InvalidTiming));
    assert!(exhausted.generation_exhausted && exhausted.invalid);
    assert_eq!(decide_drain(exhausted, alone(&exhausted, Ok(None))), (Err(TimelineError::InvalidTiming), exhausted));
}

#[test]
fn contended_coordinators_leave_the_drain_pending() {
    let state = fresh();
    let contended = DrainEnvironment { coordinator_contended: true, ..alone(&state, Ok(None)) };
    assert_eq!(decide_drain(state, contended), (Ok(TryDrain::Pending), state));
}

#[test]
fn registrations_are_decided_by_the_counters() {
    assert!(!admits_loss(0, false));
    assert!(!admits_loss(5, true));
    assert!(admits_loss(5, false));
    assert_eq!(decide_registration(3, 4), RegistrationStep::Inconsistent);
    assert_eq!(decide_registration(u64::MAX, 0), RegistrationStep::CounterExhausted);
    assert_eq!(decide_registration(256, 0), RegistrationStep::Full);
    assert_eq!(decide_registration(255, 0), RegistrationStep::Take);
}
