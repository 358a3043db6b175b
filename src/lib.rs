//! An authoritative two-player board game built on an event log: every change
//! of state is a `GameEvent` that is validated, applied and recorded.
pub mod authority;
pub mod game;
pub mod roster;
