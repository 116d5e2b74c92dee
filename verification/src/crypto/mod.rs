//! Encryption of traffic and the change of its keys.

pub mod cipher;
pub mod key_rotation;
