//! A single participant in a simulated distributed cluster: nodes exchange
//! newline-delimited JSON messages and run one of several tiny algorithms,
//! the main one being flood broadcast with receiver-side deduplication.
pub mod agent;
pub mod codec;
pub mod error;
pub mod json;
pub mod node;
pub mod protocol;
pub mod runtime;

pub use runtime::Runtime;
