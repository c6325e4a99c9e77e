//! Verified core of a desktop media shell: the wire-format codec and message
//! router that bridge the embedded browser surface, the playback engine and
//! the update checker; the supervisor state machine for the bundled streaming
//! server; the single-instance coordination logic; and the update-cycle rules.
use vstd::prelude::*;

pub mod text;
pub mod json;
pub mod ipc;
pub mod router;
pub mod log_ring;
pub mod supervisor;
pub mod coordinator;
pub mod updater;
pub mod player;
pub mod window;

verus! {

/// Capacity of the server log ring, in lines.
pub const SRV_LOG_SIZE: usize = 20;

/// Delay before an exited server child is started again, in milliseconds.
pub const RESTART_DELAY_MS: u64 = 500;

/// Prefix of the per-user rendezvous path used for single-instance signaling.
pub const IPC_PATH: &'static str = "//./pipe/com.stremio5.";

} // verus!
