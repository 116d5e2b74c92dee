//! How one client is served: greeting, request, tunnel answer, relay.

use crate::proxy::addresses::Socks5Address;
#[allow(unused_imports)]
use crate::proxy::addresses::AddressView;
use crate::proxy::socks5::{
    send_reply, Socks5Request, CMD_BIND, CMD_CONNECT, CMD_UDP_ASSOCIATE, NO_ACCEPTABLE_METHOD,
    NO_AUTH, REPLY_COMMAND_UNSUPPORTED, REPLY_GENERAL_FAILURE, REPLY_SUCCEEDED, SOCKS5_VERSION,
};
#[allow(unused_imports)]
use crate::proxy::socks5;
use crate::utils::bytes::copy_range;
use crate::utils::text::{decimal, join};
#[allow(unused_imports)]
use crate::utils::text;
use crate::utils::{PhantomError, PhantomResult};
use vstd::prelude::*;
use vstd::string::StringExecFns;

verus! {

/// What a step sends back, and how the connection goes on or ends.
#[derive(Debug)]
pub enum HandlerStep {
    /// Ask the tunnel for the request's target.
    Resolve,
    /// Send `reply` and relay, `initial` first.
    Relay { reply: Vec<u8>, initial: Vec<u8> },
    /// Send `reply` and end with `error`.
    Refuse { reply: Vec<u8>, error: PhantomError },
}

/// The reply to a command that is not served: unsupported, bound to nothing.
pub open spec fn unsupported_reply() -> Seq<u8> {
    socks5::reply_wire(REPLY_COMMAND_UNSUPPORTED, AddressView::Ipv4(seq![0u8, 0, 0, 0], 0))
}

/// Why a command is not served.
pub open spec fn unsupported_text(command: u8) -> Seq<char> {
    if command == CMD_BIND {
        "BIND command not supported"@
    } else if command == CMD_UDP_ASSOCIATE {
        "UDP ASSOCIATE not supported"@
    } else {
        "Unsupported command: "@ + text::decimal_of(command as nat)
    }
}

/// Whether a tunnel's answer lets a connection through: its first byte is 0.
pub open spec fn lets_through(answer: Seq<u8>) -> bool {
    answer.len() > 0 && answer[0] == 0
}

/// What has gone through one relay.
#[derive(Debug, Clone, Copy, PartialEq, Eq, Structural)]
pub struct RelayTotals {
    pub bytes_in: u64,
    pub bytes_out: u64,
}

impl RelayTotals {
    pub fn new() -> (t: Self)
        ensures
            t == (RelayTotals { bytes_in: 0, bytes_out: 0 }),
    {
        RelayTotals { bytes_in: 0, bytes_out: 0 }
    }

    /// Counts `data` in and its answer out, and says whether the answer is to be sent to
    /// the client: the first one always, a later one unless it is empty.
    pub fn forwarded(&mut self, data: &[u8], answer: &[u8], first: bool) -> (write: bool)
        requires
            old(self).bytes_in + data@.len() <= u64::MAX,
            old(self).bytes_out + answer@.len() <= u64::MAX,
        ensures
            final(self).bytes_in == old(self).bytes_in + data@.len(),
            final(self).bytes_out == old(self).bytes_out + answer@.len(),
            write == (first || answer@.len() > 0),
    {
        self.bytes_in = self.bytes_in + data.len() as u64;
        self.bytes_out = self.bytes_out + answer.len() as u64;
        first || answer.len() > 0
    }
}

/// The decisions made while one client is served.
#[derive(Debug, Clone, Copy)]
pub struct ConnectionHandler;

impl ConnectionHandler {
    pub fn new() -> (h: Self) {
        ConnectionHandler
    }

    /// How many authentication methods a greeting announces. Any version but 5 is refused.
    pub fn read_greeting(&self, header: [u8; 2]) -> (r: PhantomResult<usize>)
        ensures
            header[0] == SOCKS5_VERSION ==> (r matches Ok(n) && n == header[1]),
            header[0] != SOCKS5_VERSION ==> (r matches Err(e) && e.is_lost(
                "Unsupported SOCKS version: "@ + text::decimal_of(header[0] as nat),
            )),
    {
        if header[0] != SOCKS5_VERSION {
            let number = decimal(header[0] as u128);
            return Err(
                PhantomError::ConnectionLost(join("Unsupported SOCKS version: ", number.as_str())),
            );
        }
        Ok(header[1] as usize)
    }

    /// The answer to a greeting: no authentication where the client offers that, and a
    /// refusal else.
    pub fn negotiate_auth(&self, methods: &[u8]) -> (r: (Vec<u8>, PhantomResult<()>))
        ensures
            methods@.contains(NO_AUTH) ==> r.0@ == seq![SOCKS5_VERSION, NO_AUTH] && r.1 is Ok,
            !methods@.contains(NO_AUTH) ==> r.0@ == seq![SOCKS5_VERSION, NO_ACCEPTABLE_METHOD]
                && (r.1 matches Err(e) && e.is_lost("No acceptable auth methods"@)),
    {
        let mut i: usize = 0;
        let mut found = false;
        while i < methods.len()
            invariant
                i <= methods@.len(),
                found == methods@.take(i as int).contains(NO_AUTH),
            decreases methods@.len() - i,
        {
            assert(methods@.take(i + 1) =~= methods@.take(i as int).push(methods@[i as int]));
            if methods[i] == NO_AUTH {
                found = true;
                assert(methods@.take(i + 1)[i as int] == NO_AUTH);
            } else {
                proof {
                    let more = methods@.take(i + 1);
                    let less = methods@.take(i as int);
                    if more.contains(NO_AUTH) {
                        let k = choose|k: int| 0 <= k < more.len() && more[k] == NO_AUTH;
                        assert(less[k] == NO_AUTH);
                    }
                    if less.contains(NO_AUTH) {
                        let k = choose|k: int| 0 <= k < less.len() && less[k] == NO_AUTH;
                        assert(more[k] == NO_AUTH);
                    }
                }
            }
            i += 1;
        }
        assert(methods@.take(i as int) =~= methods@);
        let mut reply: Vec<u8> = Vec::new();
        reply.push(SOCKS5_VERSION);
        if found {
            reply.push(NO_AUTH);
            assert(reply@ =~= seq![SOCKS5_VERSION, NO_AUTH]);
            (reply, Ok(()))
        } else {
            reply.push(NO_ACCEPTABLE_METHOD);
            assert(reply@ =~= seq![SOCKS5_VERSION, NO_ACCEPTABLE_METHOD]);
            (
                reply,
                Err(PhantomError::ConnectionLost(String::from_str("No acceptable auth methods"))),
            )
        }
    }

    /// The command of a request. Any version but 5 is refused; the reserved byte is not
    /// looked at.
    pub fn read_request(&self, header: [u8; 3]) -> (r: PhantomResult<u8>)
        ensures
            header[0] == SOCKS5_VERSION ==> (r matches Ok(command) && command == header[1]),
            header[0] != SOCKS5_VERSION ==> (r matches Err(e) && e.is_lost(
                "Invalid request version: "@ + text::decimal_of(header[0] as nat),
            )),
    {
        if header[0] != SOCKS5_VERSION {
            let number = decimal(header[0] as u128);
            return Err(
                PhantomError::ConnectionLost(join("Invalid request version: ", number.as_str())),
            );
        }
        Ok(header[1])
    }

    /// What a request comes to: only CONNECT is served.
    pub fn handle(&self, request: &Socks5Request) -> (step: HandlerStep)
        ensures
            request.command == CMD_CONNECT ==> step is Resolve,
            request.command != CMD_CONNECT ==> (step matches HandlerStep::Refuse { reply, error }
                && reply@ == unsupported_reply() && error.is_lost(
                unsupported_text(request.command),
            )),
    {
        if request.is_connect() {
            return HandlerStep::Resolve;
        }
        let nowhere = Socks5Address::unbound();
        let reply = send_reply(REPLY_COMMAND_UNSUPPORTED, &nowhere);
        let why = if request.is_bind() {
            String::from_str("BIND command not supported")
        } else if request.is_udp_associate() {
            String::from_str("UDP ASSOCIATE not supported")
        } else {
            let number = decimal(request.command as u128);
            join("Unsupported command: ", number.as_str())
        };
        HandlerStep::Refuse { reply, error: PhantomError::ConnectionLost(why) }
    }

    /// What the tunnel's answer comes to: a relay that starts with what stands behind the
    /// answer's first byte, or a refusal with the tunnel's own error where it had one.
    pub fn handle_connect(
        &self,
        target: &Socks5Address,
        answer: PhantomResult<Vec<u8>>,
    ) -> (step: HandlerStep)
        ensures
            match answer {
                Ok(data) => if lets_through(data@) {
                    step matches HandlerStep::Relay { reply, initial } && reply@
                        == socks5::reply_wire(REPLY_SUCCEEDED, target@) && initial@ == data@.skip(1)
                } else {
                    step matches HandlerStep::Refuse { reply, error } && reply@
                        == socks5::reply_wire(REPLY_GENERAL_FAILURE, target@) && error.is_lost(
                        "Tunnel resolution failed"@,
                    )
                },
                Err(cause) => step matches HandlerStep::Refuse { reply, error } && reply@
                    == socks5::reply_wire(REPLY_GENERAL_FAILURE, target@) && error == cause,
            },
    {
        match answer {
            Ok(data) => {
                if data.len() == 0 || data[0] != 0 {
                    return HandlerStep::Refuse {
                        reply: send_reply(REPLY_GENERAL_FAILURE, target),
                        error: PhantomError::ConnectionLost(
                            String::from_str("Tunnel resolution failed"),
                        ),
                    };
                }
                let initial = copy_range(data.as_slice(), 1, data.len());
                assert(initial@ =~= data@.skip(1));
                HandlerStep::Relay { reply: send_reply(REPLY_SUCCEEDED, target), initial }
            },
            Err(cause) => HandlerStep::Refuse {
                reply: send_reply(REPLY_GENERAL_FAILURE, target),
                error: cause,
            },
        }
    }
}

/// A command that is not served is answered with the code seven and bound to no address.
pub proof fn law_other_commands_are_refused()
    ensures
        unsupported_reply() == seq![5u8, 7, 0, 1, 0, 0, 0, 0, 0, 0],
{
    crate::utils::bytes::law_byte_orders(0, 0);
    let wire = AddressView::Ipv4(seq![0u8, 0, 0, 0], 0).wire();
    assert(wire =~= seq![1u8, 0, 0, 0, 0, 0, 0]);
    assert(unsupported_reply() =~= seq![5u8, 7, 0, 1, 0, 0, 0, 0, 0, 0]);
}

/// Only an answer that begins with a zero lets a connection through, whatever follows.
pub proof fn law_zero_lets_through(first: u8, rest: Seq<u8>)
    ensures
        lets_through(seq![first] + rest) <==> first == 0,
        !lets_through(Seq::<u8>::empty()),
{
    assert((seq![first] + rest)[0] == first);
}

} // verus!
