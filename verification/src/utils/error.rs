//! What can go wrong, with the text that is shown for it.

use crate::utils::text::join;
use vstd::prelude::*;
use vstd::string::StringExecFns;

verus! {

#[derive(Debug)]
pub enum PhantomError {
    QuicError(String),
    KcpError(String),
    CryptoError(String),
    SocksError(String),
    SignalingError(String),
    RelayError(String),
    ConfigError(String),
    ConnectionFailed(String),
    ConnectionLost(String),
    IoError(String),
    SerializationError(String),
    Http3Error(String),
    Cancelled,
}

pub type PhantomResult<T> = Result<T, PhantomError>;

impl PhantomError {
    /// The text shown for the error.
    pub open spec fn message(&self) -> Seq<char> {
        match self {
            PhantomError::QuicError(e) => "QUIC error: "@ + e@,
            PhantomError::KcpError(e) => "KCP error: "@ + e@,
            PhantomError::CryptoError(e) => "Crypto error: "@ + e@,
            PhantomError::SocksError(e) => "SOCKS error: "@ + e@,
            PhantomError::SignalingError(e) => "Signaling error: "@ + e@,
            PhantomError::RelayError(e) => "Relay error: "@ + e@,
            PhantomError::ConfigError(e) => "Configuration error: "@ + e@,
            PhantomError::ConnectionFailed(e) => "Connection failed: "@ + e@,
            PhantomError::ConnectionLost(e) => "Connection lost: "@ + e@,
            PhantomError::IoError(e) => "IO error: "@ + e@,
            PhantomError::SerializationError(e) => "Serialization error: "@ + e@,
            PhantomError::Http3Error(e) => "HTTP/3 error: "@ + e@,
            PhantomError::Cancelled => "Task cancelled"@,
        }
    }

    /// Whether the error is a crypto error with this text.
    pub open spec fn is_crypto(&self, text: Seq<char>) -> bool {
        self matches PhantomError::CryptoError(e) && e@ == text
    }

    /// Whether the error is a configuration error with this text.
    pub open spec fn is_config(&self, text: Seq<char>) -> bool {
        self matches PhantomError::ConfigError(e) && e@ == text
    }

    /// Whether the error is a KCP error with this text.
    pub open spec fn is_kcp(&self, text: Seq<char>) -> bool {
        self matches PhantomError::KcpError(e) && e@ == text
    }

    /// Whether the error is a signaling error with this text.
    pub open spec fn is_signaling(&self, text: Seq<char>) -> bool {
        self matches PhantomError::SignalingError(e) && e@ == text
    }

    /// Whether the error is a relay error with this text.
    pub open spec fn is_relay(&self, text: Seq<char>) -> bool {
        self matches PhantomError::RelayError(e) && e@ == text
    }

    /// Whether the error is a failed connection with this text.
    pub open spec fn is_failed(&self, text: Seq<char>) -> bool {
        self matches PhantomError::ConnectionFailed(e) && e@ == text
    }

    /// Whether the error is a lost connection with this text.
    pub open spec fn is_lost(&self, text: Seq<char>) -> bool {
        self matches PhantomError::ConnectionLost(e) && e@ == text
    }

    /// The text shown for the error.
    pub fn to_text(&self) -> (s: String)
        ensures
            s@ == self.message(),
    {
        match self {
            PhantomError::QuicError(e) => join("QUIC error: ", e.as_str()),
            PhantomError::KcpError(e) => join("KCP error: ", e.as_str()),
            PhantomError::CryptoError(e) => join("Crypto error: ", e.as_str()),
            PhantomError::SocksError(e) => join("SOCKS error: ", e.as_str()),
            PhantomError::SignalingError(e) => join("Signaling error: ", e.as_str()),
            PhantomError::RelayError(e) => join("Relay error: ", e.as_str()),
            PhantomError::ConfigError(e) => join("Configuration error: ", e.as_str()),
            PhantomError::ConnectionFailed(e) => join("Connection failed: ", e.as_str()),
            PhantomError::ConnectionLost(e) => join("Connection lost: ", e.as_str()),
            PhantomError::IoError(e) => join("IO error: ", e.as_str()),
            PhantomError::SerializationError(e) => join("Serialization error: ", e.as_str()),
            PhantomError::Http3Error(e) => join("HTTP/3 error: ", e.as_str()),
            PhantomError::Cancelled => String::from_str("Task cancelled"),
        }
    }
}

} // verus!
