//! Decision core of a parachain node that follows a relay chain for its consensus.
//!
//! The relay chain says which parachain block is the best head and which one is
//! final; this crate turns those observations, together with the node's own import
//! notifications, into decisions: which block to mark as best, which to finalize,
//! which header to keep waiting for, which blocks to announce, and which pending
//! candidates to recover from the availability layer and when.
//!
//! Every decision is a verified function of plain values. Talking to the clients,
//! the timers and the message bus is left to the caller.
pub mod hash;
pub mod header;
pub mod recovery;
pub mod finalized;
pub mod follower;
