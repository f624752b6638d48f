//! Persistence layer of an RGB stash: a content-addressed store of schemata,
//! geneses, state transitions, state extensions and anchors, laid out as one
//! directory per kind, and an index from transition identifiers to the
//! anchors that commit to them.

pub mod artifacts;
pub mod hex;
pub mod ids;
pub mod layout;
pub mod index;
pub mod storage;
pub mod snapshot;
