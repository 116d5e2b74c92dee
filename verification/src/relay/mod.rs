//! Workers that relay data, and the pool that picks among them.

pub mod worker_client;
pub mod worker_pool;
