//! A tunnel whose traffic passes for that of games and browsers: the logic of its parts.

pub mod crypto;
pub mod masking;
pub mod phantom_core;
pub mod proxy;
pub mod relay;
pub mod signaling;
pub mod tauri_cmds;
pub mod transport;
pub mod utils;
