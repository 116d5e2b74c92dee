//! The client's side of a QUIC connection: whom it asks for, what it shows, and when it
//! connects anew.

use crate::phantom_core::config::TransportConfig;
use crate::phantom_core::state::ConnectionState;
#[allow(unused_imports)]
use crate::phantom_core::state::StateView;
use crate::utils::bytes::copy_range;
use crate::utils::text::{chars_of, join, match_at, text_of};
#[allow(unused_imports)]
use crate::utils::text;
use crate::utils::{PhantomError, PhantomResult};
use vstd::prelude::*;
use vstd::string::StringExecFns;

verus! {

/// How long to wait before connecting anew.
pub const RECONNECT_DELAY_SECS: u64 = 5;

/// How long to wait between two looks at the connection.
pub const POLL_SECS: u64 = 1;

/// Where a connection is made anew to.
pub const RECONNECT_ADDRESS: &'static str = "127.0.0.1:443";

pub const CLOSE_CODE: u32 = 0;

pub const CLOSE_REASON: &'static str = "done";

/// Where `needle` first stands in `hay` from `from` on; the end where it does not.
pub open spec fn find_from(hay: Seq<char>, needle: Seq<char>, from: int) -> int
    decreases hay.len() - from,
{
    if from >= hay.len() {
        hay.len() as int
    } else if text::stands_at(hay, needle, from) {
        from
    } else {
        find_from(hay, needle, from + 1)
    }
}

/// What stands behind the first `://`, or all where there is none.
pub open spec fn without_scheme(url: Seq<char>) -> Seq<char> {
    let at = find_from(url, "://"@, 0);
    if at < url.len() {
        url.skip(at + 3)
    } else {
        url
    }
}

/// The host that an address names: what stands before the first colon behind the scheme.
pub open spec fn server_name_of(url: Seq<char>) -> Seq<char> {
    let rest = without_scheme(url);
    rest.take(find_from(rest, ":"@, 0))
}

fn find(hay: &Vec<char>, needle: &Vec<char>, from: usize) -> (at: usize)
    requires
        from <= hay@.len(),
    ensures
        at == find_from(hay@, needle@, from as int),
        from <= at <= hay@.len(),
        at < hay@.len() ==> text::stands_at(hay@, needle@, at as int),
    decreases hay@.len() - from,
{
    if from >= hay.len() {
        hay.len()
    } else if match_at(hay, needle, from) {
        from
    } else {
        find(hay, needle, from + 1)
    }
}

/// The host that a worker's address names.
pub fn server_name(worker_url: &str) -> (name: String)
    ensures
        name@ == server_name_of(worker_url@),
{
    let url = chars_of(worker_url);
    let scheme = chars_of("://");
    proof {
        reveal_strlit("://");
    }
    let at: usize = find(&url, &scheme, 0);
    let rest_text = if at < url.len() {
        let t = text_of(&url, at + 3, url.len());
        assert(t@ =~= worker_url@.skip(at + 3));
        t
    } else {
        let t = text_of(&url, 0, url.len());
        assert(t@ =~= worker_url@);
        t
    };
    let rest = chars_of(rest_text.as_str());
    let colon = chars_of(":");
    let end: usize = find(&rest, &colon, 0);
    let name = text_of(&rest, 0, end);
    assert(name@ =~= rest@.take(end as int));
    name
}

/// A step of connecting that failed.
#[derive(Debug)]
pub enum ConnectFault {
    /// The worker's address, and why it cannot be read.
    Address(String, String),
    Initiate(String),
    Handshake(String),
}

impl ConnectFault {
    /// The text of the error that a fault becomes.
    pub open spec fn message(&self) -> Seq<char> {
        match self {
            ConnectFault::Address(url, why) => "Invalid worker URL '"@ + url@ + "': "@ + why@,
            ConnectFault::Initiate(why) => "Failed to initiate connection: "@ + why@,
            ConnectFault::Handshake(why) => "Connection handshake failed: "@ + why@,
        }
    }

    pub fn into_error(self) -> (e: PhantomError)
        ensures
            e.is_failed(self.message()),
    {
        let text = match &self {
            ConnectFault::Address(url, why) => {
                let mut t = join("Invalid worker URL '", url.as_str());
                t.append("': ");
                t.append(why.as_str());
                t
            },
            ConnectFault::Initiate(why) => join("Failed to initiate connection: ", why.as_str()),
            ConnectFault::Handshake(why) => join("Connection handshake failed: ", why.as_str()),
        };
        PhantomError::ConnectionFailed(text)
    }
}

/// A step on a connection's stream that failed.
#[derive(Debug)]
pub enum StreamFault {
    OpenSend(String),
    Write(String),
    Finish(String),
    AcceptRecv(String),
    Read(String),
    /// The stream ended before anything came.
    Ended,
}

impl StreamFault {
    /// Whether a fault becomes the error `e`: a lost connection where the stream ended, a
    /// failed one else.
    pub open spec fn is_error(&self, e: PhantomError) -> bool {
        match self {
            StreamFault::OpenSend(why) => e.is_failed("Failed to open send stream: "@ + why@),
            StreamFault::Write(why) => e.is_failed("Failed to write data: "@ + why@),
            StreamFault::Finish(why) => e.is_failed("Failed to finish send stream: "@ + why@),
            StreamFault::AcceptRecv(why) => e.is_failed(
                "Failed to accept receive stream: "@ + why@,
            ),
            StreamFault::Read(why) => e.is_failed("Failed to read data: "@ + why@),
            StreamFault::Ended => e.is_lost("Stream closed before data received"@),
        }
    }

    pub fn into_error(self) -> (e: PhantomError)
        ensures
            self.is_error(e),
    {
        match &self {
            StreamFault::OpenSend(why) => PhantomError::ConnectionFailed(
                join("Failed to open send stream: ", why.as_str()),
            ),
            StreamFault::Write(why) => PhantomError::ConnectionFailed(
                join("Failed to write data: ", why.as_str()),
            ),
            StreamFault::Finish(why) => PhantomError::ConnectionFailed(
                join("Failed to finish send stream: ", why.as_str()),
            ),
            StreamFault::AcceptRecv(why) => PhantomError::ConnectionFailed(
                join("Failed to accept receive stream: ", why.as_str()),
            ),
            StreamFault::Read(why) => PhantomError::ConnectionFailed(
                join("Failed to read data: ", why.as_str()),
            ),
            StreamFault::Ended => PhantomError::ConnectionLost(
                String::from_str("Stream closed before data received"),
            ),
        }
    }
}

/// What the connection loop does next.
#[derive(Debug, Clone, Copy, PartialEq, Eq, Structural)]
pub enum LoopStep {
    /// Wait, and connect anew.
    Reconnect,
    /// Nothing.
    Rest,
}

#[derive(Debug)]
pub struct QuicClient {
    pub config: TransportConfig,
    pub state: ConnectionState,
    pub has_connection: bool,
}

impl QuicClient {
    pub fn new(config: TransportConfig, state: ConnectionState) -> (c: Self)
        ensures
            c.config == config,
            c.state == state,
            !c.has_connection,
    {
        QuicClient { config, state, has_connection: false }
    }

    /// Begins to connect: the state shows it, and the host that is asked for comes back.
    pub fn connect(&mut self, worker_url: &str) -> (name: String)
        ensures
            final(self).config == old(self).config,
            final(self).has_connection == old(self).has_connection,
            final(self).state@ == StateView::Connecting,
            name@ == server_name_of(worker_url@),
    {
        self.state = ConnectionState::Connecting;
        server_name(worker_url)
    }

    /// Takes note of how connecting came out. A failure leaves the state as it is.
    pub fn connected(&mut self, outcome: Result<(), ConnectFault>) -> (r: PhantomResult<()>)
        ensures
            final(self).config == old(self).config,
            match outcome {
                Ok(_) => {
                    &&& r is Ok
                    &&& final(self).has_connection
                    &&& final(self).state@ == StateView::Connected {
                        speed_up: 0,
                        speed_down: 0,
                        worker_count: 1,
                    }
                },
                Err(fault) => {
                    &&& r matches Err(e) && e.is_failed(fault.message())
                    &&& *final(self) == *old(self)
                },
            },
    {
        match outcome {
            Ok(_) => {
                self.has_connection = true;
                self.state = ConnectionState::Connected {
                    speed_up: 0,
                    speed_down: 0,
                    worker_count: 1,
                };
                Ok(())
            },
            Err(fault) => Err(fault.into_error()),
        }
    }

    /// Gives the connection up. Says whether there is one to close.
    pub fn disconnect(&mut self) -> (close: bool)
        ensures
            final(self).config == old(self).config,
            !final(self).has_connection,
            final(self).state@ == StateView::Disconnected,
            close == old(self).has_connection,
    {
        let close = self.has_connection;
        self.has_connection = false;
        self.state = ConnectionState::Disconnected;
        close
    }

    /// Whether anything can be sent or received.
    pub fn active(&self) -> (r: PhantomResult<()>)
        ensures
            self.has_connection ==> r is Ok,
            !self.has_connection ==> (r matches Err(e) && e.is_failed("No active connection"@)),
    {
        if self.has_connection {
            Ok(())
        } else {
            Err(PhantomError::ConnectionFailed(String::from_str("No active connection")))
        }
    }

    /// How much is read at once.
    pub fn receive_size(&self) -> (n: usize)
        ensures
            n == self.config.mtu,
    {
        self.config.mtu as usize
    }

    /// The bytes received: as much of the buffer as was read into.
    pub fn recv(&self, buffer: Vec<u8>, read: Result<usize, StreamFault>) -> (r: PhantomResult<
        Vec<u8>,
    >)
        ensures
            !self.has_connection ==> (r matches Err(e) && e.is_failed("No active connection"@)),
            self.has_connection ==> match read {
                Ok(n) => r matches Ok(data) && data@ == (if n < buffer@.len() {
                    buffer@.take(n as int)
                } else {
                    buffer@
                }),
                Err(fault) => r matches Err(e) && fault.is_error(e),
            },
    {
        if let Err(e) = self.active() {
            return Err(e);
        }
        match read {
            Err(fault) => Err(fault.into_error()),
            Ok(n) => {
                if n < buffer.len() {
                    let data = copy_range(buffer.as_slice(), 0, n);
                    assert(data@ =~= buffer@.take(n as int));
                    Ok(data)
                } else {
                    Ok(buffer)
                }
            },
        }
    }

    /// What a send comes to.
    pub fn send(&self, sent: Result<(), StreamFault>) -> (r: PhantomResult<()>)
        ensures
            !self.has_connection ==> (r matches Err(e) && e.is_failed("No active connection"@)),
            self.has_connection ==> match sent {
                Ok(_) => r is Ok,
                Err(fault) => r matches Err(e) && fault.is_error(e),
            },
    {
        if let Err(e) = self.active() {
            return Err(e);
        }
        match sent {
            Ok(_) => Ok(()),
            Err(fault) => Err(fault.into_error()),
        }
    }

    /// What a look at the connection comes to: one that is gone or was never made is made
    /// anew.
    pub fn run_connection_loop(&self, alive: bool) -> (step: LoopStep)
        ensures
            step == (if self.has_connection && alive {
                LoopStep::Rest
            } else {
                LoopStep::Reconnect
            }),
    {
        if self.has_connection && alive {
            LoopStep::Rest
        } else {
            LoopStep::Reconnect
        }
    }

    /// Takes note that connecting anew failed.
    pub fn reconnect_failed(&mut self, cause: &PhantomError)
        ensures
            final(self).config == old(self).config,
            final(self).has_connection == old(self).has_connection,
            final(self).state@ == (StateView::Error {
                message: "Reconnection failed: "@ + cause.message(),
            }),
    {
        let why = cause.to_text();
        self.state = ConnectionState::Error { message: join("Reconnection failed: ", why.as_str()) };
    }
}

/// Nothing is found before the first place where it stands.
proof fn lemma_found(hay: Seq<char>, needle: Seq<char>, from: int, at: int)
    requires
        0 <= from <= at <= hay.len(),
        forall|i: int| from <= i < at ==> !#[trigger] text::stands_at(hay, needle, i),
        at < hay.len() ==> text::stands_at(hay, needle, at),
    ensures
        find_from(hay, needle, from) == at,
    decreases at - from,
{
    if from < at {
        assert(!text::stands_at(hay, needle, from));
        lemma_found(hay, needle, from + 1, at);
    }
}

/// The server's name is the host of an address, without a scheme before it or a port behind it.
pub proof fn law_server_name_is_the_host(scheme: Seq<char>, host: Seq<char>, rest: Seq<char>)
    requires
        forall|i: int| 0 <= i < scheme.len() ==> #[trigger] scheme[i] != ':',
        forall|i: int| 0 <= i < host.len() ==> #[trigger] host[i] != ':',
    ensures
        server_name_of(host) == host,
        server_name_of(scheme + "://"@ + host) == host,
        server_name_of(scheme + "://"@ + host + seq![':'] + rest) == host,
{
    reveal_strlit("://");
    reveal_strlit(":");
    assert("://"@.len() == 3 && "://"@[0] == ':');
    assert(":"@.len() == 1 && ":"@[0] == ':');
    lemma_bare_host(host, host, Seq::empty());
    assert(find_from(host, "://"@, 0) == host.len()) by {
        assert forall|i: int| 0 <= i < host.len() implies !#[trigger] text::stands_at(
            host,
            "://"@,
            i,
        ) by {
            if text::stands_at(host, "://"@, i) {
                assert(host.subrange(i, i + 3)[0] == host[i]);
            }
        }
        lemma_found(host, "://"@, 0, host.len() as int);
    }
    let one = scheme + "://"@ + host;
    lemma_scheme(scheme, host);
    assert(one =~= scheme + "://"@ + host);
    let tail = host + seq![':'] + rest;
    lemma_scheme(scheme, tail);
    assert(scheme + "://"@ + host + seq![':'] + rest =~= scheme + "://"@ + tail);
    lemma_bare_host(tail, host, rest);
}

proof fn lemma_scheme(scheme: Seq<char>, tail: Seq<char>)
    requires
        forall|i: int| 0 <= i < scheme.len() ==> #[trigger] scheme[i] != ':',
    ensures
        without_scheme(scheme + "://"@ + tail) == tail,
{
    reveal_strlit("://");
    assert("://"@.len() == 3 && "://"@[0] == ':');
    let url = scheme + "://"@ + tail;
    let at = scheme.len() as int;
    assert forall|i: int| 0 <= i < at implies !#[trigger] text::stands_at(url, "://"@, i) by {
        if text::stands_at(url, "://"@, i) {
            assert(url.subrange(i, i + 3)[0] == url[i]);
            assert(url[i] == scheme[i]);
        }
    }
    assert(url.subrange(at, at + 3) =~= "://"@);
    assert(text::stands_at(url, "://"@, at));
    lemma_found(url, "://"@, 0, at);
    assert(url.skip(at + 3) =~= tail);
}

proof fn lemma_bare_host(url: Seq<char>, host: Seq<char>, rest: Seq<char>)
    requires
        forall|i: int| 0 <= i < host.len() ==> #[trigger] host[i] != ':',
        url == host || url == host + seq![':'] + rest,
    ensures
        url.take(find_from(url, ":"@, 0)) == host,
{
    reveal_strlit(":");
    assert(":"@.len() == 1 && ":"@[0] == ':');
    let at = host.len() as int;
    assert forall|i: int| 0 <= i < at implies !#[trigger] text::stands_at(url, ":"@, i) by {
        if text::stands_at(url, ":"@, i) {
            assert(url.subrange(i, i + 1)[0] == url[i]);
            assert(url[i] == host[i]);
        }
    }
    if at < url.len() {
        assert(url.subrange(at, at + 1) =~= ":"@);
        assert(text::stands_at(url, ":"@, at));
    }
    lemma_found(url, ":"@, 0, at);
    assert(url.take(at) =~= host);
}

} // verus!
