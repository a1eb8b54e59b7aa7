//! Flows: typed bundles of named streams.

pub mod error;
pub mod stream;
pub mod flow_core;
pub mod conflict;
pub mod host;
pub mod journal;
pub mod memorizer;
pub mod sync;
pub mod replica;
