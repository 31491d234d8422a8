//! The authority side of a sharded payments sidechain: base types, committee
//! quorums, transfer messages, option parsing, and the per-shard handlers.

pub mod authority;
pub mod base_types;
pub mod committee;
pub mod error;
pub mod messages;
pub mod options;
