//! A parallel transaction executor in the Block-STM style, verified.
//!
//! A block of transactions runs speculatively on several workers against a
//! multi-version map; reads are validated, conflicting incarnations are
//! aborted and re-executed, and the block commits in index order with
//! exactly the outputs that sequential execution produces. Around the core
//! sit the delta resolver for aggregator keys, a dependency graph used to
//! split blocks, and a sharded dispatcher.
use vstd::prelude::*;

pub mod config;
pub mod types;
pub mod txn;
pub mod storage;
pub mod versioned_map;
pub mod scheduler;
pub mod commit;
pub mod delta;
pub mod executor;
pub mod speculation;
pub mod dependency_graph;
pub mod laws;
pub mod sharded;

verus! {

} // verus!
