//! Incremental multiproof gathering for block execution.
//!
//! While a block's transactions execute, the engine must assemble a Merkle
//! multiproof covering every account and storage slot the block touches.
//! This crate holds the verified core of that work: deduplicating raw
//! state-access events into batches of hashed proof targets, merging partial
//! multiproof results in any order, and driving a session to its terminal
//! state once the event stream has closed and no dispatched computation is
//! still outstanding.

pub mod access;
pub mod hashing;
pub mod laws;
pub mod model;
pub mod multiproof;
pub mod session;
mod table;
pub mod targets;
