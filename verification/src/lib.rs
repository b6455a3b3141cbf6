//! Dense, time-ordered 64-bit identifier allocation, partitioned across
//! independently counted domains.
//!
//! Each identifier packs four fields (seconds since a configured epoch, a
//! per-domain counter, the replica's instance id and the domain) into one
//! 64-bit word whose top bit stays clear, and the packing is invertible.
//! The per-domain allocator advances a `(timestamp, counter)` pair under
//! mutation pressure, drawing on a bounded reserve of past seconds to absorb
//! bursts before it ever blocks a caller.

pub mod clock;
pub mod codec;
pub mod config;
pub mod dto;
pub mod error;
pub mod http;
pub mod idgen;
