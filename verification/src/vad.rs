//! The integer side of the energy voice-activity decision: the interval a
//! block of samples covers, padded when it holds speech.

use vstd::prelude::*;

verus! {

/// What a block of samples was classified as.
#[derive(Debug, Clone, Copy, PartialEq, Eq, Structural)]
pub enum VadKind {
    Speech,
    Silence,
    Error,
}

/// The block's end: its start plus its whole milliseconds, plus the tail
/// padding for speech; `None` when it does not fit in `u64`.
pub open spec fn block_end_ms(
    sample_count: nat,
    sample_rate_hz: nat,
    start_ms: nat,
    is_speech: bool,
    tail_padding_ms: nat,
) -> Option<u64> {
    let end = start_ms + (sample_count * 1000) / sample_rate_hz + if is_speech { tail_padding_ms } else { 0 };
    if end <= u64::MAX { Some(end as u64) } else { None }
}

/// Classifies a block of `sample_count` samples at `sample_rate_hz` starting
/// at `start_ms`, given whether its energy reached the speech threshold:
/// speech or silence with the block's end, or an error (ending where it
/// starts) for a zero sample rate or an end past `u64`.
pub fn energy_interval(
    sample_count: usize,
    sample_rate_hz: u32,
    start_ms: u64,
    is_speech: bool,
    tail_padding_ms: u32,
) -> (r: (VadKind, u64))
    ensures
        sample_rate_hz == 0 ==> r == (VadKind::Error, start_ms),
        sample_rate_hz > 0 ==> match block_end_ms(
            sample_count as nat,
            sample_rate_hz as nat,
            start_ms as nat,
            is_speech,
            tail_padding_ms as nat,
        ) {
            Some(end) => r == (if is_speech { VadKind::Speech } else { VadKind::Silence }, end),
            None => r == (VadKind::Error, start_ms),
        },
{
    if sample_rate_hz == 0 {
        return (VadKind::Error, start_ms);
    }
    let samples = sample_count as u128;
    let rate = sample_rate_hz as u128;
    assert(samples * 1000 <= 0xffff_ffff_ffff_ffff * 1000) by (nonlinear_arith)
        requires
            samples <= 0xffff_ffff_ffff_ffff,
    ;
    let scaled = samples * 1000;
    let duration_ms = scaled / rate;
    assert(duration_ms <= scaled) by (nonlinear_arith)
        requires
            rate >= 1,
            duration_ms == scaled / rate,
    ;
    let base = start_ms as u128 + duration_ms;
    if base > 0xffff_ffff_ffff_ffff {
        return (VadKind::Error, start_ms);
    }
    let base_end_ms = base as u64;
    if is_speech {
        match base_end_ms.checked_add(tail_padding_ms as u64) {
            Some(end) => (VadKind::Speech, end),
            None => (VadKind::Error, start_ms),
        }
    } else {
        (VadKind::Silence, base_end_ms)
    }
}

} // verus!
