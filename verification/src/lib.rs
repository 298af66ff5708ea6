//! Core of a one-shot certificate synchronization agent.
//!
//! The library decides, from the modification times of the local
//! certificate files and a persisted record of the last successful push,
//! whether the remote host must be refreshed, and drives the three-step
//! remote sequence (two transfers, then a reload command) as a verified
//! state machine.  All file and process work stays with the caller, which
//! hands the library plain values and performs the steps it asks for.

pub mod codec;
pub mod errors;
pub mod executor;
pub mod inspect;
pub mod session;
pub mod timestamp;
