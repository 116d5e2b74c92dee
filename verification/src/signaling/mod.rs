//! How workers are found: published lists, DNS records, and what to do when one fails.

pub mod discovery;
pub mod doh;
pub mod failover;
pub mod nostr;

pub use discovery::WorkerDiscovery;
pub use doh::DohDiscovery;
pub use failover::FailoverManager;
pub use nostr::NostrDiscovery;
