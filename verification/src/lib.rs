//! Verified core of a desktop capture pipeline: recording identities,
//! session timelines, loss accounting, capture journals, sidecar and
//! manifest validation, result revisions, and history catalog policy.

pub mod text;
pub mod session;
pub mod clock;
pub mod frame;
pub mod loss;
pub mod track;
pub mod results;
pub mod artifacts;
pub mod wav;
pub mod journal;
pub mod sidecar;
pub mod capture;
pub mod replay;
pub mod durability;
pub mod history;
pub mod commands;
pub mod stream;
pub mod vad;
