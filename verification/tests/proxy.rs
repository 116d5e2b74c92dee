use phantom::masking::kcp_wrapper::KcpWrapper;
use phantom::masking::profiles::GamingProfile;
use phantom::proxy::addresses::{read_address, AddressStep, Socks5Address};
use phantom::proxy::handler::{ConnectionHandler, HandlerStep, RelayTotals};
use phantom::proxy::resolver::{
    build_dns_query, build_dns_query_with, encode_target_address, wrap_dns_query, TunnelFault,
    TunnelResolver,
};
use phantom::proxy::socks5::{
    closed_while_reading, send_reply, AcceptStep, ConnectionState, Socks5Proxy, Socks5Request,
    REPLY_GENERAL_FAILURE, REPLY_SUCCEEDED,
};
use phantom::utils::error::PhantomError;

fn v6(groups: [u16; 8]) -> Socks5Address {
    let mut ip = [0u8; 16];
    for (i, g) in groups.iter().enumerate() {
        ip[2 * i] = (g >> 8) as u8;
        ip[2 * i + 1] = (g & 0xff) as u8;
    }
    Socks5Address::Ipv6(ip, 80)
}

fn domain(name: &str) -> Socks5Address {
    Socks5Address::Domain(name.to_string(), 443)
}

#[test]
fn hosts_read_as_text() {
    assert_eq!(Socks5Address::Ipv4([127, 0, 0, 1], 80).host_str(), "127.0.0.1");
    assert_eq!(Socks5Address::Ipv4([255, 10, 200, 9], 80).host_str(), "255.10.200.9");
    assert_eq!(domain("example.com").host_str(), "example.com");
    assert_eq!(v6([0, 0, 0, 0, 0, 0, 0, 0]).host_str(), "::");
    assert_eq!(v6([0, 0, 0, 0, 0, 0, 0, 1]).host_str(), "::1");
    assert_eq!(v6([0x2001, 0xdb8, 0, 0, 0, 0, 0, 1]).host_str(), "2001:db8::1");
    assert_eq!(v6([0xfe80, 0, 0, 0, 1, 0, 0, 1]).host_str(), "fe80::1:0:0:1");
    assert_eq!(v6([1, 0, 0, 2, 0, 0, 3, 4]).host_str(), "1::2:0:0:3:4");
    assert_eq!(v6([1, 2, 3, 4, 5, 6, 7, 8]).host_str(), "1:2:3:4:5:6:7:8");
    assert_eq!(v6([1, 0, 3, 4, 5, 6, 7, 8]).host_str(), "1:0:3:4:5:6:7:8");
    assert_eq!(v6([0, 0, 0, 0, 0, 0xffff, 0xc0a8, 0x0001]).host_str(), "::ffff:192.168.0.1");
}

#[test]
fn addresses_are_read_step_by_step() {
    assert!(matches!(read_address(&[]), Ok(AddressStep::Need(1))));
    assert!(matches!(read_address(&[1]), Ok(AddressStep::Need(6))));
    assert!(matches!(read_address(&[4, 0]), Ok(AddressStep::Need(17))));
    assert!(matches!(read_address(&[3]), Ok(AddressStep::Need(1))));
    assert!(matches!(read_address(&[3, 2, b'a']), Ok(AddressStep::Need(1))));
    assert!(matches!(read_address(&[3, 2, b'a', b'b']), Ok(AddressStep::Need(2))));
    match read_address(&[3, 2, b'a', b'b', 1, 187]) {
        Ok(AddressStep::Done(Socks5Address::Domain(name, port))) => {
            assert_eq!((name.as_str(), port), ("ab", 443));
        }
        other => panic!("{:?}", other),
    }
    match read_address(&[1, 10, 0, 0, 1, 0, 80]) {
        Ok(AddressStep::Done(a)) => {
            assert_eq!((a.host_str().as_str(), a.port()), ("10.0.0.1", 80));
        }
        other => panic!("{:?}", other),
    }
}

#[test]
fn bad_addresses_are_refused() {
    assert_eq!(
        read_address(&[2]).unwrap_err().to_text(),
        "Connection lost: Unsupported address type: 2"
    );
    let why = read_address(&[3, 1, 0xff]).unwrap_err().to_text();
    assert!(why.starts_with("Connection lost: Invalid domain name: invalid utf-8"));
}

#[test]
fn an_address_reads_back() {
    for a in [domain("example.com"), v6([1, 2, 3, 4, 5, 6, 7, 8]), Socks5Address::unbound()] {
        let wire = encode_target_address(&a);
        match read_address(&wire) {
            Ok(AddressStep::Done(b)) => {
                assert_eq!((a.host_str(), a.port()), (b.host_str(), b.port()));
            }
            other => panic!("{:?}", other),
        }
    }
    assert_eq!(
        encode_target_address(&domain("ab")),
        vec![3, 2, b'a', b'b', 1, 187]
    );
}

#[test]
fn replies_carry_the_address() {
    assert_eq!(
        send_reply(REPLY_SUCCEEDED, &Socks5Address::Ipv4([1, 2, 3, 4], 258)),
        vec![5, 0, 0, 1, 1, 2, 3, 4, 1, 2]
    );
    assert_eq!(
        closed_while_reading().to_text(),
        "Connection lost: Connection closed during read"
    );
}

#[test]
fn greetings_are_of_version_five() {
    let h = ConnectionHandler::new();
    assert_eq!(h.read_greeting([5, 3]).unwrap(), 3);
    assert_eq!(
        h.read_greeting([4, 1]).unwrap_err().to_text(),
        "Connection lost: Unsupported SOCKS version: 4"
    );
    assert_eq!(h.read_request([5, 1, 0]).unwrap(), 1);
    assert_eq!(
        h.read_request([6, 1, 0]).unwrap_err().to_text(),
        "Connection lost: Invalid request version: 6"
    );
}

#[test]
fn only_no_authentication_is_accepted() {
    let h = ConnectionHandler::new();
    let (reply, r) = h.negotiate_auth(&[2, 0]);
    assert_eq!(reply, vec![5, 0]);
    assert!(r.is_ok());
    let (reply, r) = h.negotiate_auth(&[1, 2]);
    assert_eq!(reply, vec![5, 0xff]);
    assert_eq!(r.unwrap_err().to_text(), "Connection lost: No acceptable auth methods");
    assert_eq!(h.negotiate_auth(&[]).0, vec![5, 0xff]);
}

#[test]
fn only_connect_is_served() {
    let h = ConnectionHandler::new();
    let ask = |command: u8| Socks5Request { command, target: domain("x") };
    assert!(matches!(h.handle(&ask(1)), HandlerStep::Resolve));
    let cases = [
        (2, "Connection lost: BIND command not supported"),
        (3, "Connection lost: UDP ASSOCIATE not supported"),
        (9, "Connection lost: Unsupported command: 9"),
    ];
    for (command, why) in cases {
        match h.handle(&ask(command)) {
            HandlerStep::Refuse { reply, error } => {
                assert_eq!(reply, vec![5, 7, 0, 1, 0, 0, 0, 0, 0, 0]);
                assert_eq!(error.to_text(), why);
            }
            other => panic!("{:?}", other),
        }
    }
}

#[test]
fn the_tunnel_decides_on_a_connect() {
    let h = ConnectionHandler::new();
    let target = Socks5Address::Ipv4([1, 1, 1, 1], 53);
    match h.handle_connect(&target, Ok(vec![0, 7, 8])) {
        HandlerStep::Relay { reply, initial } => {
            assert_eq!(reply, send_reply(REPLY_SUCCEEDED, &target));
            assert_eq!(initial, vec![7, 8]);
        }
        other => panic!("{:?}", other),
    }
    for answer in [vec![], vec![1, 7]] {
        match h.handle_connect(&target, Ok(answer)) {
            HandlerStep::Refuse { reply, error } => {
                assert_eq!(reply, send_reply(REPLY_GENERAL_FAILURE, &target));
                assert_eq!(error.to_text(), "Connection lost: Tunnel resolution failed");
            }
            other => panic!("{:?}", other),
        }
    }
    match h.handle_connect(&target, Err(PhantomError::Cancelled)) {
        HandlerStep::Refuse { error, .. } => assert_eq!(error.to_text(), "Task cancelled"),
        other => panic!("{:?}", other),
    }
}

#[test]
fn relays_count_both_ways() {
    let mut t = RelayTotals::new();
    assert!(t.forwarded(&[1, 2], &[], true));
    assert!(!t.forwarded(&[3], &[], false));
    assert!(t.forwarded(&[4], &[5, 6], false));
    assert_eq!((t.bytes_in, t.bytes_out), (4, 2));
}

#[test]
fn the_proxy_counts_and_stops() {
    let mut p = Socks5Proxy::new(1080, ConnectionState::new());
    assert_eq!(p.bind_address(), "127.0.0.1:1080");
    assert_eq!(
        p.bind_failed("in use").to_text(),
        "IO error: Failed to bind SOCKS5 proxy to 127.0.0.1:1080: in use"
    );
    p.state.open_connection();
    assert_eq!(p.get_active_connections(), 1);
    p.state.add_traffic(10, 20);
    p.state.add_traffic(1, 2);
    p.state.close_connection();
    assert_eq!(p.get_active_connections(), 0);
    assert_eq!((p.state.total_bytes_in, p.state.total_bytes_out), (11, 22));
    assert!(p.accepts());
    assert_eq!(p.after_accept(false), AcceptStep::Retry);
    p.stop();
    assert!(!p.accepts());
    assert_eq!(p.after_accept(false), AcceptStep::Stop);
    assert_eq!(p.after_accept(true), AcceptStep::Serve);
}

#[test]
fn queries_are_laid_out() {
    let query = build_dns_query_with("www.example.com", 0x1234);
    let mut expected = vec![0x12, 0x34, 1, 0, 0, 1, 0, 0, 0, 0, 0, 0];
    expected.extend_from_slice(b"\x03www\x07example\x03com\x00");
    expected.extend_from_slice(&[0, 1, 0, 1]);
    assert_eq!(query, expected);
    assert_eq!(build_dns_query_with("www.example.com.", 0x1234), expected);
    assert_eq!(build_dns_query_with("", 0).len(), 17);
    assert_eq!(wrap_dns_query(&[9, 8]), vec![0, 0, 1, 9, 8]);
}

#[test]
fn a_query_has_a_drawn_number() {
    let query = build_dns_query("a.b").unwrap();
    assert_eq!(query[2..], build_dns_query_with("a.b", 0)[2..]);
}

#[test]
fn tunnel_faults_say_what_failed() {
    let why = || PhantomError::Cancelled;
    let cases = vec![
        (
            TunnelFault::ResolveSend(why()),
            "KCP error: Failed to send through KCP tunnel: Task cancelled",
        ),
        (
            TunnelFault::ResolveRecv(why()),
            "KCP error: Failed to receive from KCP tunnel: Task cancelled",
        ),
        (TunnelFault::DnsSend(why()), "KCP error: DNS query send failed: Task cancelled"),
        (TunnelFault::DnsRecv(why()), "KCP error: DNS recv failed: Task cancelled"),
        (
            TunnelFault::DnsTimeout,
            "Connection failed: DNS resolution timed out through tunnel",
        ),
        (TunnelFault::ForwardSend(why()), "KCP error: Forward send failed: Task cancelled"),
        (TunnelFault::ForwardRecv(why()), "KCP error: Forward recv failed: Task cancelled"),
    ];
    for (fault, text) in cases {
        assert_eq!(fault.into_error().to_text(), text);
    }
}

fn tunnel() -> TunnelResolver {
    TunnelResolver::new(KcpWrapper::with_conv(7, GamingProfile::default(), 0).unwrap())
}

/// A segment of conversation 7 as the engine reads it.
fn answer(sn: u8, payload: &[u8]) -> Vec<u8> {
    let mut p = vec![7, 0, 0, 0, 81, 0, 32, 0, 0, 0, 0, 0, sn, 0, 0, 0, 0, 0, 0, 0];
    p.extend_from_slice(&(payload.len() as u32).to_le_bytes());
    p.extend_from_slice(payload);
    p
}

#[test]
fn a_tunnel_passes_requests_and_answers() {
    let mut t = tunnel();
    t.kcp_wrapper.update(0);
    let request = Socks5Request { command: 1, target: domain("example.com") };
    t.resolve(&request, 0).unwrap();
    assert_eq!(t.kcp_wrapper.wait_snd(), 1);
    assert_eq!(t.resolved(&answer(0, &[0, 9])).unwrap(), vec![0, 9]);
    t.resolve_dns("example.com", 0).unwrap();
    assert_eq!(t.kcp_wrapper.wait_snd(), 2);
    assert_eq!(t.resolved_dns(Some(&answer(1, b"ip"))).unwrap(), b"ip".to_vec());
    t.forward_stream(&[0; 1377], 0).unwrap();
    assert_eq!(t.kcp_wrapper.wait_snd(), 4);
    assert_eq!(t.forwarded(&answer(2, b"data")).unwrap(), b"data".to_vec());
}

#[test]
fn a_tunnel_says_what_failed() {
    let mut t = tunnel();
    let request = Socks5Request { command: 1, target: domain("example.com") };
    let inner = "KCP error: KCP flush error: need to call update() once";
    let text = |what: &str| format!("KCP error: {}: {}", what, inner);
    assert_eq!(
        t.resolve(&request, 0).unwrap_err().to_text(),
        text("Failed to send through KCP tunnel")
    );
    assert_eq!(t.resolve_dns("x", 0).unwrap_err().to_text(), text("DNS query send failed"));
    assert_eq!(t.forward_stream(&[1], 0).unwrap_err().to_text(), text("Forward send failed"));
    let small = "KCP error: Received packet too small to be a valid KCP packet";
    assert_eq!(
        t.resolved(&[]).unwrap_err().to_text(),
        format!("KCP error: Failed to receive from KCP tunnel: {}", small)
    );
    assert_eq!(
        t.resolved_dns(Some(&[])).unwrap_err().to_text(),
        format!("KCP error: DNS recv failed: {}", small)
    );
    assert_eq!(
        t.resolved_dns(None).unwrap_err().to_text(),
        "Connection failed: DNS resolution timed out through tunnel"
    );
    assert_eq!(
        t.forwarded(&[]).unwrap_err().to_text(),
        format!("KCP error: Forward recv failed: {}", small)
    );
}
