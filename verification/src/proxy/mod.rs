//! The local SOCKS5 proxy: its wire format, its decisions, and what it asks of the tunnel.

pub mod addresses;
pub mod handler;
pub mod resolver;
pub mod socks5;

pub use addresses::Socks5Address;
pub use handler::ConnectionHandler;
pub use socks5::Socks5Proxy;
