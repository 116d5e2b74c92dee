use phantom::phantom_core::config::PhantomConfig;
use phantom::phantom_core::engine::{EngineEvent, PhantomEngine};
use phantom::phantom_core::state::ConnectionState;
use phantom::tauri_cmds::{cmd_connect, cmd_disconnect, cmd_get_status};
use phantom::utils::error::PhantomError;

#[test]
fn the_default_configuration_is_complete() {
    let c = PhantomConfig::default();
    assert_eq!(
        c.signaling.nostr_relays,
        vec!["wss://relay.damus.io", "wss://relay.snort.social", "wss://nos.lol"]
    );
    assert_eq!(c.signaling.nostr_pubkey, "");
    assert_eq!(c.signaling.doh_endpoint, "https://cloudflare-dns.com/dns-query");
    assert_eq!(c.transport.alpn, vec!["h3"]);
    assert_eq!(c.transport.mtu, 1200);
    assert!(c.masking.gaming_profile.is_none());
    assert_eq!((c.masking.packet_size_min, c.masking.packet_size_max), (60, 1400));
    assert_eq!(c.encryption.algorithm, "chacha20-poly1305");
    assert_eq!(c.encryption.key_rotation_minutes, 60);
    assert_eq!(c.exit_nodes.len(), 2);
    assert_eq!(c.exit_nodes[1].region, "eu-west");
}

#[test]
fn the_engine_goes_up_and_down() {
    let mut e = PhantomEngine::new(PhantomConfig::default());
    assert!(e.get_state().is_disconnected());
    assert!(!e.stop());
    e.start();
    assert!(e.get_state().is_connecting());
    e.on_event(EngineEvent::Started);
    assert!(matches!(e.get_state(), ConnectionState::Connected { worker_count: 3, .. }));
    e.on_event(EngineEvent::ShutdownSignalled);
    assert!(e.get_state().is_connected());
    assert!(e.stop());
    assert!(e.get_state().is_disconnected());
    assert!(!e.stop());
}

#[test]
fn the_engine_shows_what_failed() {
    let mut e = PhantomEngine::new(PhantomConfig::default());
    e.start();
    e.on_event(EngineEvent::Failed(PhantomError::IoError("port".to_string())));
    assert_eq!(e.get_state().error_message(), Some("IO error: port"));
    e.on_event(EngineEvent::ShutdownLost);
    assert_eq!(e.get_state().error_message(), Some("Task cancelled"));
}

#[test]
fn a_state_is_disconnected_at_first() {
    let s = ConnectionState::default();
    assert!(s.is_disconnected() && !s.is_connected() && !s.is_connecting());
    assert_eq!(s.error_message(), None);
}

#[test]
fn commands_answer() {
    assert_eq!(cmd_connect(Ok(())), Ok("Connected".to_string()));
    assert_eq!(cmd_disconnect(Ok(())), Ok("Disconnected".to_string()));
    assert_eq!(cmd_connect(Err(PhantomError::Cancelled)), Err("Task cancelled".to_string()));
    assert_eq!(cmd_disconnect(Err(PhantomError::Cancelled)), Err("Task cancelled".to_string()));
}

#[test]
fn the_status_names_the_state() {
    let s = cmd_get_status(ConnectionState::Connected {
        speed_up: 1,
        speed_down: 2,
        worker_count: 3,
    })
    .unwrap();
    assert_eq!(s.state, "connected");
    assert_eq!((s.speed_up, s.speed_down, s.worker_count), (1, 2, 3));
    assert_eq!(s.error_message, None);
    let s = cmd_get_status(ConnectionState::Error { message: "m".to_string() }).unwrap();
    assert_eq!((s.state.as_str(), s.error_message.as_deref()), ("error", Some("m")));
    assert_eq!(cmd_get_status(ConnectionState::Connecting).unwrap().state, "connecting");
    assert_eq!(cmd_get_status(ConnectionState::Disconnected).unwrap().state, "disconnected");
}

#[test]
fn errors_read_as_text() {
    let why = || "x".to_string();
    let cases = vec![
        (PhantomError::QuicError(why()), "QUIC error: x"),
        (PhantomError::KcpError(why()), "KCP error: x"),
        (PhantomError::CryptoError(why()), "Crypto error: x"),
        (PhantomError::SocksError(why()), "SOCKS error: x"),
        (PhantomError::SignalingError(why()), "Signaling error: x"),
        (PhantomError::RelayError(why()), "Relay error: x"),
        (PhantomError::ConfigError(why()), "Configuration error: x"),
        (PhantomError::ConnectionFailed(why()), "Connection failed: x"),
        (PhantomError::ConnectionLost(why()), "Connection lost: x"),
        (PhantomError::IoError(why()), "IO error: x"),
        (PhantomError::SerializationError(why()), "Serialization error: x"),
        (PhantomError::Http3Error(why()), "HTTP/3 error: x"),
        (PhantomError::Cancelled, "Task cancelled"),
    ];
    for (e, text) in cases {
        assert_eq!(e.to_text(), text);
    }
}
