//! Reconciliation of a cached audio-device model with the operating system's
//! audio subsystem: which devices exist, their input and output levels, which
//! of them the engine holds silent, and which are the selected defaults.
//!
//! The library never talks to the operating system itself. A caller hands it
//! a [`snapshot::Snapshot`] of what the system reports and performs the
//! [`snapshot::Command`]s that come back.

pub mod audio;
#[allow(non_upper_case_globals, non_snake_case)]
pub mod coreaudio;
pub mod device;
pub mod events;
pub mod guarantees;
pub mod level;
pub mod model;
pub mod order;
pub mod snapshot;
pub mod state;
pub mod system;
pub mod tui;
