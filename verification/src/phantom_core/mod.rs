//! Configuration, connection state, and the engine that ties the parts together.

pub mod config;
pub mod engine;
pub mod state;
