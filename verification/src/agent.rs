//! The concrete algorithms a node can run.
pub mod broadcast;
pub mod echo;
pub mod unique_id;

pub use broadcast::BroadcastAgent;
pub use echo::EchoAgent;
pub use unique_id::UniqueIdAgent;
