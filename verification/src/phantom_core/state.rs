//! Where a connection stands.

use vstd::prelude::*;

verus! {

#[derive(Debug)]
pub enum ConnectionState {
    Disconnected,
    Connecting,
    Connected { speed_up: u64, speed_down: u64, worker_count: usize },
    Error { message: String },
}

/// What a state says.
#[verifier::ext_equal]
pub enum StateView {
    Disconnected,
    Connecting,
    Connected { speed_up: u64, speed_down: u64, worker_count: usize },
    Error { message: Seq<char> },
}

impl View for ConnectionState {
    type V = StateView;

    open spec fn view(&self) -> StateView {
        match self {
            ConnectionState::Disconnected => StateView::Disconnected,
            ConnectionState::Connecting => StateView::Connecting,
            ConnectionState::Connected { speed_up, speed_down, worker_count } =>
                StateView::Connected {
                speed_up: *speed_up,
                speed_down: *speed_down,
                worker_count: *worker_count,
            },
            ConnectionState::Error { message } => StateView::Error { message: message@ },
        }
    }
}

impl ConnectionState {
    pub fn is_connected(&self) -> (b: bool)
        ensures
            b == (self@ is Connected),
    {
        matches!(self, ConnectionState::Connected { .. })
    }

    pub fn is_connecting(&self) -> (b: bool)
        ensures
            b == (self@ is Connecting),
    {
        matches!(self, ConnectionState::Connecting)
    }

    pub fn is_disconnected(&self) -> (b: bool)
        ensures
            b == (self@ is Disconnected),
    {
        matches!(self, ConnectionState::Disconnected)
    }

    /// The error's text, in an error state only.
    pub fn error_message(&self) -> (m: Option<&str>)
        ensures
            match self@ {
                StateView::Error { message } => m matches Some(text) && text@ == message,
                _ => m is None,
            },
    {
        match self {
            ConnectionState::Error { message } => Some(message.as_str()),
            _ => None,
        }
    }
}

impl Default for ConnectionState {
    fn default() -> (s: Self)
        ensures
            s@ == StateView::Disconnected,
    {
        ConnectionState::Disconnected
    }
}

impl Clone for ConnectionState {
    fn clone(&self) -> (c: Self)
        ensures
            c@ == self@,
    {
        match self {
            ConnectionState::Disconnected => ConnectionState::Disconnected,
            ConnectionState::Connecting => ConnectionState::Connecting,
            ConnectionState::Connected { speed_up, speed_down, worker_count } =>
                ConnectionState::Connected {
                speed_up: *speed_up,
                speed_down: *speed_down,
                worker_count: *worker_count,
            },
            ConnectionState::Error { message } => ConnectionState::Error {
                message: message.clone(),
            },
        }
    }
}

} // verus!
