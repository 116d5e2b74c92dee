//! What goes through the tunnel: encoded targets, DNS queries, and what its failures are
//! called.

use crate::masking::kcp_wrapper::KcpWrapper;
#[allow(unused_imports)]
use crate::masking::kcp_wrapper;
use crate::proxy::addresses::Socks5Address;
use crate::proxy::socks5::Socks5Request;
use crate::utils::bytes::{put_all, put_u16_be};
#[allow(unused_imports)]
use crate::utils::bytes;
use crate::utils::random::random_between;
use crate::utils::text::join;
use crate::utils::{PhantomError, PhantomResult};
use vstd::prelude::*;
use vstd::string::StringExecFns;
#[allow(unused_imports)]
use vstd::utf8::*;

verus! {

/// How long an answer to a DNS query is waited for.
pub const DNS_RESPONSE_TIMEOUT_MS: u64 = 10000;

pub const DOT: u8 = 46;

/// What stands between dots, empty pieces kept.
pub open spec fn dot_fields(raw: Seq<u8>) -> Seq<Seq<u8>>
    decreases raw.len(),
{
    if raw.len() == 0 {
        seq![Seq::empty()]
    } else {
        let before = dot_fields(raw.drop_last());
        if raw.last() == DOT {
            before.push(Seq::empty())
        } else {
            before.drop_last().push(before.last().push(raw.last()))
        }
    }
}

/// Labels on the wire: each with its length before it, of which only the low eight bits are
/// kept; empty ones are left out.
pub open spec fn labels_wire(fields: Seq<Seq<u8>>) -> Seq<u8>
    decreases fields.len(),
{
    if fields.len() == 0 {
        Seq::empty()
    } else {
        let label = fields.last();
        let before = labels_wire(fields.drop_last());
        if label.len() == 0 {
            before
        } else {
            before + seq![(label.len() % 256) as u8] + label
        }
    }
}

/// A query for the IPv4 addresses of a name: the transaction number, a header that asks one
/// question with recursion, the labels, and type and class 1.
pub open spec fn dns_query(txid: u16, domain: Seq<char>) -> Seq<u8> {
    bytes::u16_be(txid) + seq![1u8, 0, 0, 1, 0, 0, 0, 0, 0, 0] + labels_wire(
        dot_fields(encode_utf8(domain)),
    ) + seq![0u8, 0, 1, 0, 1]
}

/// A DNS query as the tunnel takes it.
pub open spec fn dns_payload(query: Seq<u8>) -> Seq<u8> {
    seq![0u8, 0, 1] + query
}

proof fn lemma_fields_are_there(raw: Seq<u8>)
    ensures
        dot_fields(raw).len() > 0,
    decreases raw.len(),
{
    if raw.len() > 0 {
        lemma_fields_are_there(raw.drop_last());
    }
}

/// A dot behind a name changes nothing.
pub proof fn law_final_dot_does_not_matter(raw: Seq<u8>)
    ensures
        labels_wire(dot_fields(raw.push(DOT))) == labels_wire(dot_fields(raw)),
{
    lemma_fields_are_there(raw);
    assert(raw.push(DOT).drop_last() =~= raw);
    let fields = dot_fields(raw);
    assert(dot_fields(raw.push(DOT)) == fields.push(Seq::empty()));
    assert(fields.push(Seq::<u8>::empty()).drop_last() =~= fields);
}

/// The target's wire form.
pub fn encode_target_address(target: &Socks5Address) -> (out: Vec<u8>)
    ensures
        out@ == target@.wire(),
{
    let mut out: Vec<u8> = Vec::new();
    target.put(&mut out);
    assert(out@ =~= target@.wire());
    out
}

/// The query for `domain` with the transaction number `txid`.
pub fn build_dns_query_with(domain: &str, txid: u16) -> (query: Vec<u8>)
    ensures
        query@ == dns_query(txid, domain@),
{
    let mut query: Vec<u8> = Vec::new();
    put_u16_be(&mut query, txid);
    let fixed: [u8; 10] = [1, 0, 0, 1, 0, 0, 0, 0, 0, 0];
    put_all(&mut query, fixed.as_slice());
    let ghost head = bytes::u16_be(txid) + seq![1u8, 0, 0, 1, 0, 0, 0, 0, 0, 0];
    assert(query@ =~= head);
    let raw = domain.as_bytes();
    let mut start: usize = 0;
    let mut i: usize = 0;
    let ghost mut done: Seq<Seq<u8>> = Seq::empty();
    proof {
        assert(raw@.take(0) =~= Seq::empty());
        assert(dot_fields(raw@.take(0)) =~= done.push(raw@.subrange(0, 0)));
        assert(query@ =~= head + labels_wire(done));
    }
    while i < raw.len()
        invariant
            start <= i <= raw@.len(),
            dot_fields(raw@.take(i as int)) == done.push(raw@.subrange(start as int, i as int)),
            query@ == head + labels_wire(done),
        decreases raw@.len() - i,
    {
        let ghost seen = raw@.take(i as int);
        let ghost more = raw@.take(i + 1);
        let ghost label = raw@.subrange(start as int, i as int);
        assert(more.drop_last() =~= seen);
        assert(done.push(label).drop_last() =~= done);
        if raw[i] == DOT {
            put_label(&mut query, vstd::slice::slice_subrange(raw, start, i));
            proof {
                assert(query@ =~= head + labels_wire(done.push(label)));
                done = done.push(label);
                assert(raw@.subrange(i + 1, i + 1) =~= Seq::empty());
            }
            start = i + 1;
        } else {
            assert(raw@.subrange(start as int, i + 1) =~= label.push(raw@[i as int]));
        }
        i += 1;
        assert(dot_fields(more) =~= done.push(raw@.subrange(start as int, i as int)));
    }
    let ghost label = raw@.subrange(start as int, i as int);
    assert(raw@.take(i as int) =~= raw@);
    assert(done.push(label).drop_last() =~= done);
    put_label(&mut query, vstd::slice::slice_subrange(raw, start, i));
    assert(query@ =~= head + labels_wire(done.push(label)));
    let tail: [u8; 5] = [0, 0, 1, 0, 1];
    put_all(&mut query, tail.as_slice());
    assert(tail@ =~= seq![0u8, 0, 1, 0, 1]);
    query
}

/// Appends a label with its length before it, unless it is empty.
fn put_label(out: &mut Vec<u8>, label: &[u8])
    ensures
        final(out)@ == (if label@.len() == 0 {
            old(out)@
        } else {
            old(out)@ + seq![(label@.len() % 256) as u8] + label@
        }),
{
    if label.len() > 0 {
        out.push((label.len() % 256) as u8);
        put_all(out, label);
        assert(out@ =~= old(out)@ + seq![(label@.len() % 256) as u8] + label@);
    }
}

/// The query for `domain` with a drawn transaction number.
pub fn build_dns_query(domain: &str) -> (r: PhantomResult<Vec<u8>>)
    ensures
        r matches Ok(query) && exists|txid: u16| query@ == #[trigger] dns_query(txid, domain@),
{
    let txid: u16 = random_between(0, 0xFFFF) as u16;
    let query = build_dns_query_with(domain, txid);
    assert(query@ == dns_query(txid, domain@));
    Ok(query)
}

/// The payload that carries a query through the tunnel.
pub fn wrap_dns_query(query: &[u8]) -> (out: Vec<u8>)
    ensures
        out@ == dns_payload(query@),
{
    let mut out: Vec<u8> = Vec::new();
    out.push(0);
    out.push(0);
    out.push(1);
    put_all(&mut out, query);
    assert(out@ =~= dns_payload(query@));
    out
}

/// A step through the tunnel that failed.
#[derive(Debug)]
pub enum TunnelFault {
    ResolveSend(PhantomError),
    ResolveRecv(PhantomError),
    DnsSend(PhantomError),
    DnsRecv(PhantomError),
    DnsTimeout,
    ForwardSend(PhantomError),
    ForwardRecv(PhantomError),
}

impl TunnelFault {
    /// The error that a fault becomes: a failed connection for a late DNS answer, a KCP
    /// error with the cause's text for all else.
    pub open spec fn is_error(&self, e: PhantomError) -> bool {
        match self {
            TunnelFault::ResolveSend(cause) => e.is_kcp(
                "Failed to send through KCP tunnel: "@ + cause.message(),
            ),
            TunnelFault::ResolveRecv(cause) => e.is_kcp(
                "Failed to receive from KCP tunnel: "@ + cause.message(),
            ),
            TunnelFault::DnsSend(cause) => e.is_kcp("DNS query send failed: "@ + cause.message()),
            TunnelFault::DnsRecv(cause) => e.is_kcp("DNS recv failed: "@ + cause.message()),
            TunnelFault::DnsTimeout => e.is_failed("DNS resolution timed out through tunnel"@),
            TunnelFault::ForwardSend(cause) => e.is_kcp("Forward send failed: "@ + cause.message()),
            TunnelFault::ForwardRecv(cause) => e.is_kcp("Forward recv failed: "@ + cause.message()),
        }
    }

    pub fn into_error(self) -> (e: PhantomError)
        ensures
            self.is_error(e),
    {
        match &self {
            TunnelFault::ResolveSend(cause) => because("Failed to send through KCP tunnel: ", cause),
            TunnelFault::ResolveRecv(cause) => because("Failed to receive from KCP tunnel: ", cause),
            TunnelFault::DnsSend(cause) => because("DNS query send failed: ", cause),
            TunnelFault::DnsRecv(cause) => because("DNS recv failed: ", cause),
            TunnelFault::DnsTimeout => PhantomError::ConnectionFailed(
                String::from_str("DNS resolution timed out through tunnel"),
            ),
            TunnelFault::ForwardSend(cause) => because("Forward send failed: ", cause),
            TunnelFault::ForwardRecv(cause) => because("Forward recv failed: ", cause),
        }
    }
}

fn because(what: &str, cause: &PhantomError) -> (e: PhantomError)
    ensures
        e.is_kcp(what@ + cause.message()),
{
    let why = cause.to_text();
    PhantomError::KcpError(join(what, why.as_str()))
}

/// Whether `r` is what `inner` came to, with `fault` as the error for a failure.
pub open spec fn passes_on<T>(
    inner: PhantomResult<T>,
    fault: spec_fn(PhantomError) -> TunnelFault,
    r: PhantomResult<T>,
) -> bool {
    match inner {
        Ok(x) => r matches Ok(y) && y == x,
        Err(cause) => r matches Err(e) && fault(cause).is_error(e),
    }
}

/// What a tunnel becomes by sending `data`, with `fault` as the error for a failure.
pub open spec fn tunnel_sends(
    before: KcpWrapper,
    data: Seq<u8>,
    now_us: u64,
    after: KcpWrapper,
    fault: spec_fn(PhantomError) -> TunnelFault,
    r: PhantomResult<Vec<Vec<u8>>>,
) -> bool {
    exists|inner: PhantomResult<Vec<Vec<u8>>>|
        #[trigger] kcp_wrapper::sends(before, data, now_us, after, inner) && passes_on(
            inner,
            fault,
            r,
        )
}

/// What a tunnel becomes by a packet, with `fault` as the error for a failure.
pub open spec fn tunnel_receives(
    before: KcpWrapper,
    packet: Seq<u8>,
    after: KcpWrapper,
    fault: spec_fn(PhantomError) -> TunnelFault,
    r: PhantomResult<Vec<u8>>,
) -> bool {
    exists|inner: PhantomResult<Vec<u8>>|
        #[trigger] kcp_wrapper::receives(before, packet, after, inner) && passes_on(
            inner,
            fault,
            r,
        )
}

/// Asks through a session's tunnel. Each request gives the packets to send; the packet that
/// comes back is handed to the answer's function.
#[derive(Debug)]
pub struct TunnelResolver {
    pub kcp_wrapper: KcpWrapper,
}

impl TunnelResolver {
    pub fn new(kcp_wrapper: KcpWrapper) -> (t: Self)
        ensures
            t.kcp_wrapper == kcp_wrapper,
    {
        TunnelResolver { kcp_wrapper }
    }

    /// Asks for a request's target.
    pub fn resolve(&mut self, request: &Socks5Request, now_us: u64) -> (r: PhantomResult<
        Vec<Vec<u8>>,
    >)
        requires
            old(self).kcp_wrapper.wf(),
            old(self).kcp_wrapper.has_room(),
        ensures
            tunnel_sends(
                old(self).kcp_wrapper,
                request.target@.wire(),
                now_us,
                final(self).kcp_wrapper,
                |e: PhantomError| TunnelFault::ResolveSend(e),
                r,
            ),
    {
        let target_bytes = encode_target_address(&request.target);
        let inner = self.kcp_wrapper.send(target_bytes.as_slice(), now_us);
        assert(kcp_wrapper::sends(
            old(self).kcp_wrapper,
            request.target@.wire(),
            now_us,
            self.kcp_wrapper,
            inner,
        ));
        match inner {
            Ok(packets) => Ok(packets),
            Err(cause) => Err(TunnelFault::ResolveSend(cause).into_error()),
        }
    }

    /// The answer to a request for a target.
    pub fn resolved(&mut self, packet: &[u8]) -> (r: PhantomResult<Vec<u8>>)
        requires
            old(self).kcp_wrapper.wf(),
            old(self).kcp_wrapper.can_read(packet@),
        ensures
            tunnel_receives(
                old(self).kcp_wrapper,
                packet@,
                final(self).kcp_wrapper,
                |e: PhantomError| TunnelFault::ResolveRecv(e),
                r,
            ),
    {
        let inner = self.kcp_wrapper.recv(packet);
        assert(kcp_wrapper::receives(
            old(self).kcp_wrapper,
            packet@,
            self.kcp_wrapper,
            inner,
        ));
        match inner {
            Ok(data) => Ok(data),
            Err(cause) => Err(TunnelFault::ResolveRecv(cause).into_error()),
        }
    }

    /// Asks for a name's address.
    pub fn resolve_dns(&mut self, domain: &str, now_us: u64) -> (r: PhantomResult<Vec<Vec<u8>>>)
        requires
            old(self).kcp_wrapper.wf(),
            old(self).kcp_wrapper.has_room(),
        ensures
            exists|txid: u16|
                tunnel_sends(
                    old(self).kcp_wrapper,
                    dns_payload(#[trigger] dns_query(txid, domain@)),
                    now_us,
                    final(self).kcp_wrapper,
                    |e: PhantomError| TunnelFault::DnsSend(e),
                    r,
                ),
    {
        let query = match build_dns_query(domain) {
            Ok(query) => query,
            Err(e) => {
                return Err(e);
            },
        };
        let payload = wrap_dns_query(query.as_slice());
        let inner = self.kcp_wrapper.send(payload.as_slice(), now_us);
        assert(kcp_wrapper::sends(
            old(self).kcp_wrapper,
            payload@,
            now_us,
            self.kcp_wrapper,
            inner,
        ));
        match inner {
            Ok(packets) => Ok(packets),
            Err(cause) => Err(TunnelFault::DnsSend(cause).into_error()),
        }
    }

    /// The answer to a request for an address; no packet where none came in time.
    pub fn resolved_dns(&mut self, packet: Option<&[u8]>) -> (r: PhantomResult<Vec<u8>>)
        requires
            old(self).kcp_wrapper.wf(),
            packet matches Some(bytes) ==> old(self).kcp_wrapper.can_read(bytes@),
        ensures
            match packet {
                None => *final(self) == *old(self) && (r matches Err(e)
                    && TunnelFault::DnsTimeout.is_error(e)),
                Some(bytes) => tunnel_receives(
                    old(self).kcp_wrapper,
                    bytes@,
                    final(self).kcp_wrapper,
                    |e: PhantomError| TunnelFault::DnsRecv(e),
                    r,
                ),
            },
    {
        let bytes = match packet {
            None => {
                return Err(TunnelFault::DnsTimeout.into_error());
            },
            Some(bytes) => bytes,
        };
        let inner = self.kcp_wrapper.recv(bytes);
        assert(kcp_wrapper::receives(
            old(self).kcp_wrapper,
            bytes@,
            self.kcp_wrapper,
            inner,
        ));
        match inner {
            Ok(data) => Ok(data),
            Err(cause) => Err(TunnelFault::DnsRecv(cause).into_error()),
        }
    }

    /// Sends a client's data on.
    pub fn forward_stream(&mut self, data: &[u8], now_us: u64) -> (r: PhantomResult<Vec<Vec<u8>>>)
        requires
            old(self).kcp_wrapper.wf(),
            old(self).kcp_wrapper.has_room(),
        ensures
            tunnel_sends(
                old(self).kcp_wrapper,
                data@,
                now_us,
                final(self).kcp_wrapper,
                |e: PhantomError| TunnelFault::ForwardSend(e),
                r,
            ),
    {
        let inner = self.kcp_wrapper.send(data, now_us);
        assert(kcp_wrapper::sends(
            old(self).kcp_wrapper,
            data@,
            now_us,
            self.kcp_wrapper,
            inner,
        ));
        match inner {
            Ok(packets) => Ok(packets),
            Err(cause) => Err(TunnelFault::ForwardSend(cause).into_error()),
        }
    }

    /// The answer to a client's data.
    pub fn forwarded(&mut self, packet: &[u8]) -> (r: PhantomResult<Vec<u8>>)
        requires
            old(self).kcp_wrapper.wf(),
            old(self).kcp_wrapper.can_read(packet@),
        ensures
            tunnel_receives(
                old(self).kcp_wrapper,
                packet@,
                final(self).kcp_wrapper,
                |e: PhantomError| TunnelFault::ForwardRecv(e),
                r,
            ),
    {
        let inner = self.kcp_wrapper.recv(packet);
        assert(kcp_wrapper::receives(
            old(self).kcp_wrapper,
            packet@,
            self.kcp_wrapper,
            inner,
        ));
        match inner {
            Ok(data) => Ok(data),
            Err(cause) => Err(TunnelFault::ForwardRecv(cause).into_error()),
        }
    }
}

/// A query begins with its number, asks one question with recursion, and ends with the root, type
/// and class 1; between them stand the labels.
pub proof fn law_queries_ask_one_question(txid: u16, domain: Seq<char>)
    ensures
        ({
            let q = dns_query(txid, domain);
            let n = q.len() as int;
            let labels = labels_wire(dot_fields(encode_utf8(domain)));
            &&& n == labels.len() + 17
            &&& q[0] == txid / 256 && q[1] == txid % 256
            &&& q[2] == 1 && q[3] == 0
            &&& q[4] == 0 && q[5] == 1
            &&& forall|i: int| 6 <= i < 12 ==> #[trigger] q[i] == 0
            &&& q.subrange(12, n - 5) == labels
            &&& q[n - 5] == 0 && q[n - 4] == 0 && q[n - 3] == 1 && q[n - 2] == 0 && q[n - 1] == 1
        }),
{
    let q = dns_query(txid, domain);
    let labels = labels_wire(dot_fields(encode_utf8(domain)));
    bytes::law_byte_orders(txid, 0);
    assert(q.subrange(12, q.len() - 5) =~= labels);
}

/// A label stands on the wire behind its length, after the labels before it; an empty one leaves
/// no trace.
pub proof fn law_labels_stand_behind_their_length(fields: Seq<Seq<u8>>, label: Seq<u8>)
    requires
        label.len() < 256,
    ensures
        label.len() > 0 ==> labels_wire(fields.push(label)) == labels_wire(fields).push(
            label.len() as u8,
        ) + label,
        label.len() == 0 ==> labels_wire(fields.push(label)) == labels_wire(fields),
        labels_wire(Seq::<Seq<u8>>::empty()).len() == 0,
{
    let all = fields.push(label);
    assert(all.drop_last() =~= fields);
    assert(all.last() == label);
    if label.len() > 0 {
        assert(labels_wire(all) =~= labels_wire(fields).push(label.len() as u8) + label);
    }
}

/// A dot ends a piece and begins an empty one; any other byte goes to the last piece.
pub proof fn law_dots_part_pieces(raw: Seq<u8>, b: u8)
    ensures
        b == 46 ==> dot_fields(raw.push(b)) == dot_fields(raw).push(Seq::empty()),
        b != 46 ==> dot_fields(raw.push(b)).len() == dot_fields(raw).len() && dot_fields(
            raw.push(b),
        ).last() == dot_fields(raw).last().push(b),
        dot_fields(Seq::<u8>::empty()) == seq![Seq::<u8>::empty()],
{
    lemma_fields_are_there(raw);
    let more = raw.push(b);
    assert(more.drop_last() =~= raw);
    assert(more.last() == b);
}

/// A query goes into the tunnel behind three bytes that mark it.
pub proof fn law_tunnel_marks_queries(query: Seq<u8>)
    ensures
        dns_payload(query).len() == query.len() + 3,
        dns_payload(query)[0] == 0,
        dns_payload(query)[1] == 0,
        dns_payload(query)[2] == 1,
        dns_payload(query).skip(3) == query,
{
    assert(dns_payload(query).skip(3) =~= query);
}

} // verus!
