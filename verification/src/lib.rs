//! Scheduling core of an optimistic parallel transaction executor.
//!
//! Workers execute and validate the transactions of a block out of order,
//! while the block commits in its fixed order. The scheduler hands out the
//! tasks, records their completion, suspends executions on dependencies
//! and wakes them, starts validation waves after aborts, and halts.
//!
//! The scheduler is a state machine: every operation is one atomic step on
//! plain data, so that a caller can share it between workers behind a lock
//! of its choice and block on dependency handles outside of it.
//!
//! - `cursor`: indices, waves and the packed validation cursor;
//! - `provider`: the indices of a block and their order of traversal;
//! - `status`: statuses, handles and tasks;
//! - `model`: the state machine over mathematical values, with its invariant;
//! - `scheduler`: the executable scheduler, proved to follow the model;
//! - `laws`: what follows for sequences of operations;
//! - `cross_shard`: the view of values awaited from other shards.

pub mod cross_shard;
pub mod cursor;
pub mod laws;
pub mod model;
pub mod provider;
pub mod scheduler;
pub mod status;
