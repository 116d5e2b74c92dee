//! SOCKS5 requests and replies, and the proxy's own state.

use crate::proxy::addresses::Socks5Address;
#[allow(unused_imports)]
use crate::proxy::addresses::AddressView;
use crate::utils::text::{decimal, join};
#[allow(unused_imports)]
use crate::utils::text;
use crate::utils::PhantomError;
use vstd::prelude::*;
use vstd::string::StringExecFns;

verus! {

pub const SOCKS5_VERSION: u8 = 0x05;

pub const NO_AUTH: u8 = 0x00;

pub const NO_ACCEPTABLE_METHOD: u8 = 0xFF;

pub const CMD_CONNECT: u8 = 0x01;

pub const CMD_BIND: u8 = 0x02;

pub const CMD_UDP_ASSOCIATE: u8 = 0x03;

pub const REPLY_SUCCEEDED: u8 = 0x00;

pub const REPLY_GENERAL_FAILURE: u8 = 0x01;

pub const REPLY_COMMAND_UNSUPPORTED: u8 = 0x07;

/// What a client asks for.
#[derive(Debug)]
pub struct Socks5Request {
    pub command: u8,
    pub target: Socks5Address,
}

impl Clone for Socks5Request {
    fn clone(&self) -> (c: Self)
        ensures
            c.command == self.command,
            c.target@ == self.target@,
    {
        Socks5Request { command: self.command, target: self.target.clone() }
    }
}

impl Socks5Request {
    pub fn is_connect(&self) -> (b: bool)
        ensures
            b == (self.command == CMD_CONNECT),
    {
        self.command == CMD_CONNECT
    }

    pub fn is_bind(&self) -> (b: bool)
        ensures
            b == (self.command == CMD_BIND),
    {
        self.command == CMD_BIND
    }

    pub fn is_udp_associate(&self) -> (b: bool)
        ensures
            b == (self.command == CMD_UDP_ASSOCIATE),
    {
        self.command == CMD_UDP_ASSOCIATE
    }
}

/// A reply on the wire: version, reply code, a reserved byte, and the address.
pub open spec fn reply_wire(reply: u8, bound: AddressView) -> Seq<u8> {
    seq![SOCKS5_VERSION, reply, 0u8] + bound.wire()
}

/// The bytes of a reply.
pub fn send_reply(reply: u8, bound_addr: &Socks5Address) -> (out: Vec<u8>)
    ensures
        out@ == reply_wire(reply, bound_addr@),
{
    let mut out: Vec<u8> = Vec::new();
    out.push(SOCKS5_VERSION);
    out.push(reply);
    out.push(0);
    bound_addr.put(&mut out);
    assert(out@ =~= reply_wire(reply, bound_addr@));
    out
}

/// A failure to read because the peer closed.
pub fn closed_while_reading() -> (e: PhantomError)
    ensures
        e.is_lost("Connection closed during read"@),
{
    PhantomError::ConnectionLost(String::from_str("Connection closed during read"))
}

/// What the proxy counts, and whether it is going down.
#[derive(Debug, Clone, Copy, PartialEq, Eq, Structural)]
pub struct ConnectionState {
    pub active_connections: u64,
    pub total_bytes_in: u64,
    pub total_bytes_out: u64,
    pub is_shutting_down: bool,
}

impl ConnectionState {
    pub fn new() -> (s: Self)
        ensures
            s == (ConnectionState {
                active_connections: 0,
                total_bytes_in: 0,
                total_bytes_out: 0,
                is_shutting_down: false,
            }),
    {
        ConnectionState {
            active_connections: 0,
            total_bytes_in: 0,
            total_bytes_out: 0,
            is_shutting_down: false,
        }
    }

    /// The state with one connection more.
    pub open spec fn opened(self) -> ConnectionState {
        ConnectionState { active_connections: (self.active_connections + 1) as u64, ..self }
    }

    /// The state with one connection less.
    pub open spec fn closed(self) -> ConnectionState {
        ConnectionState { active_connections: (self.active_connections - 1) as u64, ..self }
    }

    /// Counts a connection in.
    pub fn open_connection(&mut self)
        requires
            old(self).active_connections < u64::MAX,
        ensures
            *final(self) == old(self).opened(),
    {
        self.active_connections = self.active_connections + 1;
    }

    /// Counts a connection out.
    pub fn close_connection(&mut self)
        requires
            old(self).active_connections > 0,
        ensures
            *final(self) == old(self).closed(),
    {
        self.active_connections = self.active_connections - 1;
    }

    /// Adds what one relay moved.
    pub fn add_traffic(&mut self, bytes_in: u64, bytes_out: u64)
        requires
            old(self).total_bytes_in + bytes_in <= u64::MAX,
            old(self).total_bytes_out + bytes_out <= u64::MAX,
        ensures
            *final(self) == (ConnectionState {
                total_bytes_in: (old(self).total_bytes_in + bytes_in) as u64,
                total_bytes_out: (old(self).total_bytes_out + bytes_out) as u64,
                ..*old(self)
            }),
    {
        self.total_bytes_in = self.total_bytes_in + bytes_in;
        self.total_bytes_out = self.total_bytes_out + bytes_out;
    }
}

/// A connection that came and went leaves the state as it was.
pub proof fn law_closing_undoes_opening(s: ConnectionState)
    requires
        s.active_connections < u64::MAX,
    ensures
        s.opened().closed() == s,
{
}

/// What the accept loop does next.
#[derive(Debug, Clone, Copy, PartialEq, Eq, Structural)]
pub enum AcceptStep {
    Serve,
    Retry,
    Stop,
}

/// The proxy: where it listens, and its state.
#[derive(Debug)]
pub struct Socks5Proxy {
    pub port: u16,
    pub state: ConnectionState,
}

impl Socks5Proxy {
    pub fn new(port: u16, state: ConnectionState) -> (p: Self)
        ensures
            p.port == port,
            p.state == state,
    {
        Socks5Proxy { port, state }
    }

    /// Where the proxy listens: its port on the loopback interface.
    pub open spec fn listen_address(&self) -> Seq<char> {
        "127.0.0.1:"@ + text::decimal_of(self.port as nat)
    }

    pub fn bind_address(&self) -> (s: String)
        ensures
            s@ == self.listen_address(),
    {
        let number = decimal(self.port as u128);
        join("127.0.0.1:", number.as_str())
    }

    /// The error when the proxy cannot listen.
    pub fn bind_failed(&self, cause: &str) -> (e: PhantomError)
        ensures
            e matches PhantomError::IoError(why) && why@ == "Failed to bind SOCKS5 proxy to "@
                + self.listen_address() + ": "@ + cause@,
    {
        let place = self.bind_address();
        let mut why = join("Failed to bind SOCKS5 proxy to ", place.as_str());
        why.append(": ");
        why.append(cause);
        PhantomError::IoError(why)
    }

    /// Whether the loop waits for another connection.
    pub fn accepts(&self) -> (b: bool)
        ensures
            b == !self.state.is_shutting_down,
    {
        !self.state.is_shutting_down
    }

    /// What follows an accept: a connection is served, also one that came in while the proxy
    /// goes down; a failure ends the loop only while the proxy goes down.
    pub fn after_accept(&self, accepted: bool) -> (step: AcceptStep)
        ensures
            step == (if accepted {
                AcceptStep::Serve
            } else if self.state.is_shutting_down {
                AcceptStep::Stop
            } else {
                AcceptStep::Retry
            }),
    {
        if accepted {
            AcceptStep::Serve
        } else if self.state.is_shutting_down {
            AcceptStep::Stop
        } else {
            AcceptStep::Retry
        }
    }

    /// Goes down: the loop waits for no further connection.
    pub fn stop(&mut self)
        ensures
            final(self).port == old(self).port,
            final(self).state == (ConnectionState {
                is_shutting_down: true,
                ..old(self).state
            }),
    {
        self.state.is_shutting_down = true;
    }

    pub fn get_active_connections(&self) -> (n: u64)
        ensures
            n == self.state.active_connections,
    {
        self.state.active_connections
    }
}

/// A reply says its version, five, its code and a zero before the address that it is bound to.
pub proof fn law_replies_begin_with_version_and_code(reply: u8, bound: AddressView)
    ensures
        reply_wire(reply, bound).len() == 3 + bound.wire().len(),
        reply_wire(reply, bound)[0] == 5,
        reply_wire(reply, bound)[1] == reply,
        reply_wire(reply, bound)[2] == 0,
        reply_wire(reply, bound).skip(3) == bound.wire(),
{
    assert(reply_wire(reply, bound).skip(3) =~= bound.wire());
}

/// Opening a connection counts one more and leaves what has gone through as it is.
pub proof fn law_opening_counts_one_more(s: ConnectionState)
    requires
        s.active_connections < u64::MAX,
    ensures
        s.opened().active_connections == s.active_connections + 1,
        s.opened().total_bytes_in == s.total_bytes_in,
        s.opened().total_bytes_out == s.total_bytes_out,
        s.opened().is_shutting_down == s.is_shutting_down,
{
}

} // verus!
