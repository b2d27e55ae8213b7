//! A coordinator for mirroring watched files into a backup tree and
//! coalescing bursts of changes into a single delayed version-control commit.
//!
//! The library holds the verified logic: mirror-path resolution, the holding
//! store, the dispatcher's cancel-and-reschedule state machine, and the
//! decision rules around the external subprocess and watch collaborators.
//! Filesystem access, process spawning, the watch-event source and the timer
//! pool are external collaborators driven by the surrounding application,
//! which feeds their outcomes into the verified transitions.

pub mod errors;
pub mod mirror;
pub mod store;
pub mod config;
pub mod proc;
pub mod context;
pub mod server;
pub mod coalesce;
pub mod setup;
pub mod shellconf;
