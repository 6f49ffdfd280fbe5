//! Local state and request-admission logic for one member of a fixed-size
//! replica group running a primary-backup state-machine-replication scheme.
//!
//! The library decides, for a single replica, whether it may accept a client
//! operation (it must be the current view's primary), assigns each admitted
//! operation a strictly increasing position in an append-only log, and
//! answers re-submissions of an already-completed request from a per-client
//! cache instead of executing them again.

pub mod client_table;
pub mod replica;
