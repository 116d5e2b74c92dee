//! The tunnel's transport: how it looks and how it connects.

pub mod anti_fingerprint;
pub mod browser_profiles;
pub mod hex;
pub mod quic_client;
pub mod tls_extensions;
