//! Task orchestration with verified admission rules: per-type exclusivity
//! with a waiting queue, all-or-nothing resource locks, process-wide and
//! per-type concurrency ceilings, and a registry with cooperative
//! cancellation; plus the launcher's account list, settings diffs and URL
//! joining.

use vstd::prelude::*;

pub mod account;
pub mod client;
pub mod config;
pub mod executor;
pub mod lock;
pub mod manager;
pub mod task;

verus! {

} // verus!
