//! Package resolution for an AUR helper: SRCINFO parsing, metadata batching,
//! dependency discovery and build ordering.

pub mod branch;
pub mod cli;
pub mod config;
pub mod graph;
pub mod info;
pub mod mirror;
pub mod resolve;
pub mod rpc;
pub mod srcinfo;
pub mod style;
pub mod text;
pub mod updates;
