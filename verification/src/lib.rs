//! An adversarial-conformance engine for a secure messaging protocol.
//!
//! The crate replays declarative attack scenarios (replays, device
//! desynchronization, epoch forks, SFU abuse, corrupted session records)
//! through per-domain state trackers, derives timing and divergence metrics,
//! and evaluates the outcome against each scenario's declared expectations.

use vstd::prelude::*;

pub mod canon;
pub mod codes;
pub mod crosslang;
pub mod desync;
pub mod eare;
pub mod fork;
pub mod fuzz;
pub mod handshake;
pub mod ratio;
pub mod schema;
pub mod replay;
pub mod scheduler;
pub mod sfu;
pub mod storm;
pub mod sync;
pub mod text;

verus! {

} // verus!
