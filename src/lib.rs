//! A harness that runs one suite of tests on the host and, optionally, inside a
//! bare-metal guest that talks to the host only through two byte tapes.
//!
//! The library holds the verified core: the tape protocols, the outcome table,
//! the incremental marker scan over guest output, the guest-side dispatch and
//! the host-side supervision and run bookkeeping, written as functions from
//! state and event to next state and action.

pub mod codec;
pub mod dispatch;
pub mod orchestrator;
pub mod guest_rng;
pub mod outcome;
pub mod registry;
pub mod supervisor;
pub mod tape;
pub mod watcher;
