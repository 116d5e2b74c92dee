use phantom::phantom_core::config::TransportConfig;
use phantom::phantom_core::state::ConnectionState;
use phantom::transport::anti_fingerprint::{
    choose_crypto, ja3_text, ja4_text, select_usable, transport_settings, QuicFingerprintSpo,
};
use phantom::transport::browser_profiles::{BrowserProfile, TLS12, TLS13};
use phantom::transport::hex::encode;
use phantom::transport::quic_client::{
    server_name, ConnectFault, LoopStep, QuicClient, StreamFault,
};
use phantom::transport::tls_extensions::{
    build_alpn_data, build_groups_data, build_key_share_placeholder, build_sig_algs_data,
    build_supported_versions_data, put_zeros, SECP256R1, SECP384R1, SECP521R1, X25519,
};

fn profile_of(spo: &QuicFingerprintSpo) -> &str {
    spo.current_profile().name.as_str()
}

#[test]
fn chrome_has_its_fingerprint() {
    let chrome = BrowserProfile::chrome_120();
    assert_eq!(
        ja3_text(&chrome),
        "771,4865-4866-4867-49195-49199-49196-49200-52393-52392-49171-49172-156-157-47-53,\
         0-23-65281-10-11-35-16-5-13-18-51-45-43-27-28-65037,29-23-25497-24,0"
    );
    assert_eq!(
        ja4_text(&chrome, Some(&"h3".to_string())),
        "q_12_d_15_16_02104_1301_0000_0035_fe0d"
    );
    let spo = QuicFingerprintSpo::new(chrome);
    assert_eq!(spo.compute_ja3_hash(), "ee2d391bc5a392bcf97083dbd334135e");
    assert_eq!(
        spo.compute_ja4_hash(),
        "09c65ad9bde65cf78f09c6de09a69bb3bcf966eeee46a6063ee8533730dea54b"
    );
}

#[test]
fn firefox_has_its_fingerprint() {
    let spo = QuicFingerprintSpo::new(BrowserProfile::firefox_121());
    assert_eq!(spo.compute_ja3_hash(), "8bc88bfe0bd40b49be5cae8597feb9a2");
    assert_eq!(
        spo.compute_ja4_hash(),
        "e9b97509297f4048b37f02389c78956fd339d7b5e9a7ba56fb9d6f6f21717560"
    );
}

#[test]
fn safari_has_its_fingerprint() {
    let spo = QuicFingerprintSpo::new(BrowserProfile::safari_17());
    assert_eq!(spo.compute_ja3_hash(), "86af7fd594c6f18b2613467a34f84215");
    assert_eq!(
        spo.compute_ja4_hash(),
        "a96487711b868a651d7606ae267557aa9ffdc76a026fc63f752cfd5682b6d166"
    );
}

#[test]
fn edge_cannot_be_told_from_chrome() {
    let chrome = QuicFingerprintSpo::new(BrowserProfile::chrome_120());
    let edge = QuicFingerprintSpo::new(BrowserProfile::edge_120());
    assert_ne!(profile_of(&chrome), profile_of(&edge));
    assert!(edge.verify_match(&chrome.compute_ja3_hash(), &chrome.compute_ja4_hash()));
}

#[test]
fn matching_ignores_case_only() {
    let spo = QuicFingerprintSpo::new(BrowserProfile::firefox_121());
    let ja3 = spo.compute_ja3_hash();
    let ja4 = spo.compute_ja4_hash();
    assert!(spo.verify_match(&ja3.to_uppercase(), &ja4.to_uppercase()));
    assert!(!spo.verify_match(&ja3, "00"));
    assert!(!spo.verify_match("00", &ja4));
}

#[test]
fn rotation_picks_a_known_profile() {
    let mut spo = QuicFingerprintSpo::new(BrowserProfile::safari_17());
    let known = ["chrome_120", "firefox_121", "edge_120", "safari_17"];
    for (pick, name) in known.iter().enumerate() {
        spo.rotate_to(pick as u64);
        assert_eq!(profile_of(&spo), *name);
        assert_eq!(spo.target_browser().name, "safari_17");
    }
    for _ in 0..20 {
        spo.rotate().unwrap();
        assert!(known.contains(&profile_of(&spo)));
    }
}

#[test]
fn an_empty_profile_has_texts_too() {
    let mut profile = BrowserProfile::chrome_120();
    profile.tls_version = TLS13;
    profile.cipher_suites.clear();
    profile.extensions.clear();
    profile.supported_groups.clear();
    profile.ec_point_formats.clear();
    profile.alpn_protocols.clear();
    assert_eq!(ja3_text(&profile), "772,,,,");
    assert_eq!(ja4_text(&profile, None), "q_13_i_0_00_00_0000_0000_0000_0000");
    profile.tls_version = 0x0301;
    assert_eq!(
        ja4_text(&profile, Some(&String::new())),
        "q_00_i_0_00_0000_0000_0000_0000_0000"
    );
    let spo = QuicFingerprintSpo::new(profile);
    let e = spo.build_crypto_provider().unwrap_err();
    assert_eq!(e.to_text(), "Crypto error: No cipher suites matched browser profile");
}

#[test]
fn a_protocol_that_is_no_text_is_read_loosely() {
    let mut profile = BrowserProfile::chrome_120();
    profile.alpn_protocols = vec![vec![0xff]];
    let loose = QuicFingerprintSpo::new(profile.clone());
    // One byte that is no text reads as one replacement character of three bytes.
    let text = ja4_text(&profile, Some(&"\u{fffd}".to_string()));
    assert_eq!(text, "q_12_d_15_16_03253_1301_0000_0035_fe0d");
    profile.alpn_protocols = vec!["\u{fffd}".as_bytes().to_vec()];
    let strict = QuicFingerprintSpo::new(profile);
    assert_eq!(loose.compute_ja4_hash(), strict.compute_ja4_hash());
}

#[test]
fn suites_come_in_the_order_of_the_browser() {
    let spo = QuicFingerprintSpo::new(BrowserProfile::firefox_121());
    let choice = spo.build_crypto_provider().unwrap();
    assert_eq!(
        choice.suites,
        vec![0x1301, 0x1303, 0x1302, 0xc02b, 0xc02f, 0xcca9, 0xcca8, 0xc02c, 0xc030]
    );
    assert_eq!(choice.groups, vec![X25519, SECP256R1, SECP384R1]);
    assert_eq!(select_usable(&[3, 1, 2, 1], &[1, 2], &[1, 3]), vec![1, 1]);
}

#[test]
fn a_profile_without_usable_groups_is_refused() {
    let chrome = BrowserProfile::chrome_120();
    let e = choose_crypto(&chrome, &vec![0x1301], &vec![0x0019]).unwrap_err();
    assert_eq!(e.to_text(), "Crypto error: No key exchange groups matched browser profile");
}

#[test]
fn versions_follow_the_profile() {
    let mut profile = BrowserProfile::chrome_120();
    let spo = QuicFingerprintSpo::new(profile.clone());
    assert_eq!(spo.protocol_versions(), vec![TLS13, TLS12]);
    profile.tls_version = TLS13;
    assert_eq!(QuicFingerprintSpo::new(profile).protocol_versions(), vec![TLS13]);
}

#[test]
fn limits_follow_the_profile() {
    let spo = QuicFingerprintSpo::new(BrowserProfile::chrome_120());
    let s = spo.transport_settings().unwrap();
    assert_eq!(s.max_concurrent_bidi_streams, 100);
    assert_eq!(s.max_concurrent_uni_streams, 103);
    assert_eq!(s.stream_receive_window, 6_291_456);
    assert_eq!(s.receive_window, 15_728_640);
    assert_eq!(s.send_window, 15_728_640);
    assert_eq!(s.initial_mtu, 1200);
    assert_eq!(s.min_mtu, 1200);
    assert_eq!(s.keep_alive_secs, 15);
}

#[test]
fn limits_that_are_too_large_are_refused() {
    let most = (1u64 << 62) - 1;
    let mut p = BrowserProfile::chrome_120().quic_transport_params;
    p.initial_max_streams_bidi = most;
    assert_eq!(transport_settings(&p).unwrap().max_concurrent_bidi_streams, most);
    p.initial_max_streams_bidi = most + 1;
    let why = "Configuration error: Invalid bidi streams: value too large for varint encoding";
    assert_eq!(transport_settings(&p).unwrap_err().to_text(), why);
    p.initial_max_streams_bidi = 1;
    p.initial_max_streams_uni = most + 1;
    assert!(transport_settings(&p).unwrap_err().to_text().contains("Invalid uni streams: "));
    p.initial_max_streams_uni = 1;
    p.initial_max_stream_data_bidi_remote = most + 1;
    assert!(transport_settings(&p).unwrap_err().to_text().contains("Invalid stream window: "));
    p.initial_max_stream_data_bidi_remote = 1;
    p.initial_max_data = most + 1;
    assert!(transport_settings(&p).unwrap_err().to_text().contains("Invalid receive window: "));
}

#[test]
fn extensions_are_laid_out() {
    assert_eq!(build_groups_data(&[0x001d, 0x0017]), vec![0, 4, 0, 0x1d, 0, 0x17]);
    assert_eq!(build_sig_algs_data(&[0x0403]), vec![0, 2, 4, 3]);
    assert_eq!(
        build_alpn_data(&vec![b"h3".to_vec(), b"h2".to_vec()]),
        vec![0, 6, 2, b'h', b'3', 2, b'h', b'2']
    );
    assert_eq!(build_supported_versions_data(&[0x0304, 0x0303]), vec![2, 4, 3]);
    let shares = build_key_share_placeholder(&[X25519, SECP256R1]);
    assert_eq!(shares.len(), 2 + 4 + 32 + 4 + 65);
    assert_eq!(shares[..6], [0, 105, 0, 0x1d, 0, 32]);
    assert_eq!(shares[38..42], [0, 0x17, 0, 65]);
    assert_eq!(build_key_share_placeholder(&[SECP384R1, SECP521R1]).len(), 2 + 4 + 97 + 4 + 133);
    let mut data = vec![9];
    put_zeros(&mut data, 2);
    assert_eq!(data, vec![9, 0, 0]);
}

#[test]
fn bytes_read_as_hex() {
    assert_eq!(encode(&[]), "");
    assert_eq!(encode(&[0x00, 0x0f, 0xa5, 0xff]), "000fa5ff");
}

#[test]
fn the_host_is_what_a_url_names() {
    assert_eq!(server_name("https://worker.example:8443"), "worker.example");
    assert_eq!(server_name("worker.example:443"), "worker.example");
    assert_eq!(server_name("worker.example"), "worker.example");
    assert_eq!(server_name("https://worker.example/path"), "worker.example/path");
    assert_eq!(server_name(""), "");
}

fn client() -> QuicClient {
    let config =
        TransportConfig { protocol: "quic".to_string(), alpn: vec!["h3".to_string()], mtu: 1200 };
    QuicClient::new(config, ConnectionState::Disconnected)
}

#[test]
fn a_client_connects_and_disconnects() {
    let mut c = client();
    assert_eq!(c.receive_size(), 1200);
    assert_eq!(c.connect("127.0.0.1:443"), "127.0.0.1");
    assert!(c.state.is_connecting());
    assert_eq!(c.run_connection_loop(true), LoopStep::Reconnect);
    c.connected(Ok(())).unwrap();
    assert!(matches!(
        c.state,
        ConnectionState::Connected { speed_up: 0, speed_down: 0, worker_count: 1 }
    ));
    assert_eq!(c.run_connection_loop(true), LoopStep::Rest);
    assert_eq!(c.run_connection_loop(false), LoopStep::Reconnect);
    assert!(c.disconnect());
    assert!(!c.disconnect());
    assert!(c.state.is_disconnected());
}

#[test]
fn failed_connects_say_why() {
    let cases = vec![
        (ConnectFault::Initiate("no socket".to_string()), "no socket"),
        (ConnectFault::Handshake("timed out".to_string()), "timed out"),
        (ConnectFault::Address("x".to_string(), "bad port".to_string()), "bad port"),
    ];
    for (fault, why) in cases {
        let mut c = client();
        c.connect("x");
        let e = c.connected(Err(fault)).unwrap_err();
        assert!(e.to_text().starts_with("Connection failed: "));
        assert!(e.to_text().ends_with(why));
        assert!(c.state.is_connecting());
    }
    let mut c = client();
    let e = c.connected(Err(ConnectFault::Initiate("no".to_string()))).unwrap_err();
    c.reconnect_failed(&e);
    let text = format!("Reconnection failed: {}", e.to_text());
    assert_eq!(c.state.error_message(), Some(text.as_str()));
}

#[test]
fn nothing_moves_without_a_connection() {
    let c = client();
    assert_eq!(c.send(Ok(())).unwrap_err().to_text(), "Connection failed: No active connection");
    assert!(c.recv(vec![1], Ok(1)).is_err());
    assert!(c.active().is_err());
}

#[test]
fn as_much_is_received_as_was_read() {
    let mut c = client();
    c.connected(Ok(())).unwrap();
    assert!(c.send(Ok(())).is_ok());
    assert_eq!(c.recv(vec![1, 2, 3, 4], Ok(2)).unwrap(), vec![1, 2]);
    assert_eq!(c.recv(vec![1, 2], Ok(9)).unwrap(), vec![1, 2]);
}

#[test]
fn stream_faults_say_what_failed() {
    let mut c = client();
    c.connected(Ok(())).unwrap();
    let why = || "reset".to_string();
    let cases = vec![
        (StreamFault::OpenSend(why()), "Connection failed: Failed to open send stream: reset"),
        (StreamFault::Write(why()), "Connection failed: Failed to write data: reset"),
        (StreamFault::Finish(why()), "Connection failed: Failed to finish send stream: reset"),
        (
            StreamFault::AcceptRecv(why()),
            "Connection failed: Failed to accept receive stream: reset",
        ),
        (StreamFault::Read(why()), "Connection failed: Failed to read data: reset"),
        (StreamFault::Ended, "Connection lost: Stream closed before data received"),
    ];
    for (fault, text) in cases {
        assert_eq!(c.send(Err(fault)).unwrap_err().to_text(), text);
    }
    assert_eq!(
        c.recv(vec![0], Err(StreamFault::Ended)).unwrap_err().to_text(),
        "Connection lost: Stream closed before data received"
    );
}
