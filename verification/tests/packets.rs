use phantom::masking::kcp_engine::{check_packet, LATEST_MS, MOST_PIECES};
use phantom::masking::kcp_wrapper::{KcpFault, KcpOutput, KcpWrapper};
use phantom::masking::packet::{pad_packet_with, write_segment, PacketBuilder, KCP_HEADER_SIZE};
use phantom::masking::profiles::{default_direction_ratio, fallback_profile, GamingProfile};
use phantom::masking::timing::TrafficShaper;

fn profile(min: u16, max: u16) -> GamingProfile {
    let mut p = GamingProfile::default();
    p.packet_size_min = min;
    p.packet_size_max = max;
    p
}

fn length_in(packet: &[u8]) -> usize {
    u32::from_le_bytes([packet[20], packet[21], packet[22], packet[23]]) as usize
}

#[test]
fn a_segment_is_laid_out() {
    let p = write_segment(0x01020304, 7, 0x0a0b0c0d, 5, 6, 26, &[0xaa, 0xbb]);
    assert_eq!(
        p,
        vec![
            4, 3, 2, 1, 0x81, 7, 32, 0, 0x0d, 0x0c, 0x0b, 0x0a, 5, 0, 0, 0, 6, 0, 0, 0, 26, 0, 0,
            0, 0xaa, 0xbb
        ]
    );
}

#[test]
fn built_packets_come_apart_again() {
    let mut b = PacketBuilder::new(profile(60, 124));
    let data: Vec<u8> = (0..250u16).map(|i| i as u8).collect();
    let packets = b.build(&data);
    assert_eq!(packets.len(), 3);
    assert_eq!(b.sequence, 3);
    let mut joined = Vec::new();
    let mut payload = Vec::new();
    for (i, p) in packets.iter().enumerate() {
        assert_eq!(length_in(p), p.len());
        assert_eq!(p[5], [0, 255, 0][i]);
        assert_eq!(p[12], i as u8);
        payload.extend_from_slice(&p[KCP_HEADER_SIZE..]);
        joined.extend_from_slice(p);
    }
    assert_eq!(payload, data);
    assert_eq!(PacketBuilder::parse_kcp_packets(&joined), packets);
    joined.truncate(joined.len() - 1);
    assert_eq!(PacketBuilder::parse_kcp_packets(&joined), packets[..2].to_vec());
}

#[test]
fn nothing_is_built_from_nothing() {
    let mut b = PacketBuilder::new(profile(60, 300));
    assert!(b.build(&[]).is_empty());
    assert_eq!(b.sequence, 0);
    assert_eq!(b.profile().packet_size_max, 300);
}

#[test]
fn a_tiny_profile_carries_64_bytes() {
    let mut b = PacketBuilder::new(profile(1, 24));
    let packets = b.build(&[1; 65]);
    assert_eq!(packets.len(), 2);
    assert_eq!(packets[0].len(), KCP_HEADER_SIZE + 64);
    let lone = b.build_kcp_packet(&[9], 0, true);
    assert_eq!(lone[24..], [9]);
    assert_ne!(lone[..4], [0; 4]);
}

#[test]
fn padding_keeps_the_length_true() {
    let b = PacketBuilder::new(profile(100, 120));
    for _ in 0..20 {
        let mut p = write_segment(1, 0, 0, 0, 0, 26, &[1, 2]);
        b.pad_packet(&mut p);
        assert!(p.len() >= 100 && p.len() <= 120);
        assert_eq!(length_in(&p), p.len());
        assert_eq!(p[24..26], [1, 2]);
        assert_eq!(PacketBuilder::parse_kcp_packets(&p).len(), 1);
    }
    let mut long = vec![3; 200];
    b.pad_packet(&mut long);
    assert_eq!(long, vec![3; 200]);
    let mut p = write_segment(1, 0, 0, 0, 0, 24, &[]);
    pad_packet_with(&mut p, &[7, 8]);
    assert_eq!(length_in(&p), 26);
    assert_eq!(p[24..], [7, 8]);
}

#[test]
fn parsing_stops_at_a_bad_length() {
    let good = write_segment(1, 0, 0, 0, 0, 25, &[1]);
    let mut data = good.clone();
    data.extend_from_slice(&write_segment(1, 0, 0, 0, 0, 23, &[]));
    assert_eq!(PacketBuilder::parse_kcp_packets(&data), vec![good]);
    assert!(PacketBuilder::parse_kcp_packets(&[0; 23]).is_empty());
}

#[test]
fn heartbeats_fall_due() {
    let mut s = TrafficShaper::new(GamingProfile::default(), 1_000);
    assert!(!s.should_send_heartbeat(30_000_999));
    assert!(s.should_send_heartbeat(30_001_000));
    assert!(!s.should_send_heartbeat(0));
    s.mark_heartbeat_sent(30_001_000);
    assert!(!s.should_send_heartbeat(30_001_000));
    assert_eq!(s.profile().name, "valorant");
}

#[test]
fn delays_follow_the_draw() {
    let s = TrafficShaper::new(GamingProfile::default(), 0);
    assert_eq!(s.delay_for_jitter(-5), 0);
    assert_eq!(s.delay_for_jitter(5), 5);
    assert_eq!(s.interval_for_jitter(5), 21);
    assert_eq!(s.interval_for_jitter(-5), 16);
    for _ in 0..50 {
        assert!(s.get_jittered_delay() <= s.profile().jitter_ms);
        let gap = s.get_send_interval();
        assert!(gap >= 16 && gap <= 16 + s.profile().jitter_ms);
    }
}

#[test]
fn a_heartbeat_is_a_lone_segment() {
    let s = TrafficShaper::new(GamingProfile::default(), 0);
    for _ in 0..20 {
        let p = s.heartbeat_packet();
        assert!(p.len() >= 32 && p.len() <= 56);
        assert_eq!(length_in(&p), p.len());
        assert_eq!(p[4..8], [0x81, 0, 32, 0]);
        assert_ne!(p[..4], [0; 4]);
    }
}

fn session(conv: u32) -> KcpWrapper {
    KcpWrapper::with_conv(conv, profile(60, 80), 0).unwrap()
}

/// A segment as the engine reads it: its length field counts the payload alone.
fn push_segment(conv: u32, frg: u8, sn: u8, payload: &[u8]) -> Vec<u8> {
    let mut p = conv.to_le_bytes().to_vec();
    p.extend_from_slice(&[81, frg, 32, 0, 0, 0, 0, 0, sn, 0, 0, 0, 0, 0, 0, 0]);
    p.extend_from_slice(&(payload.len() as u32).to_le_bytes());
    p.extend_from_slice(payload);
    p
}

#[test]
fn a_session_starts_empty() {
    let w = session(9);
    assert_eq!(w.conv(), 9);
    assert_eq!(w.wait_snd(), 0);
    assert!(!w.waiting_conv() && !w.is_dead_link());
    assert_ne!(KcpWrapper::new(profile(60, 300), 0).unwrap().conv(), 0);
}

#[test]
fn a_session_must_be_told_the_time() {
    let mut w = session(9);
    assert!(w.flush().is_empty());
    let e = w.send(&[1], 0).unwrap_err();
    assert_eq!(e.to_text(), "KCP error: KCP flush error: need to call update() once");
    assert_eq!(w.wait_snd(), 1);
    w.update(0);
    assert!(!w.output.buffer.is_empty());
    assert_eq!(w.wait_snd(), 1);
}

#[test]
fn data_is_queued_in_pieces() {
    let mut w = session(9);
    w.update(0);
    assert!(w.send(&[], 0).unwrap().is_empty());
    assert_eq!(w.wait_snd(), 0);
    w.send(&[0; 1376], 0).unwrap();
    assert_eq!(w.wait_snd(), 1);
    w.send(&[0; 1377], 0).unwrap();
    assert_eq!(w.wait_snd(), 3);
    let e = w.send(&vec![0; 127 * 1376 + 1], 0).unwrap_err();
    assert_eq!(e.to_text(), "KCP error: KCP send error: user's send buffer is too big");
    assert_eq!(w.wait_snd(), 3);
    w.send(&vec![0; 127 * 1376], 0).unwrap();
    assert_eq!(w.wait_snd(), 130);
}

#[test]
fn a_flush_takes_what_was_written() {
    let mut w = session(9);
    w.update(0);
    w.output.write(&write_segment(9, 0, 0, 0, 0, 26, &[1, 2]));
    let sent = w.flush();
    assert_eq!(sent.len(), 1);
    assert!(sent[0].len() >= 60 && sent[0].len() <= 80);
    assert_eq!(sent[0][24..26], [1, 2]);
    assert!(w.output.buffer.is_empty());
    assert!(w.flush().is_empty());
}

#[test]
fn a_send_gives_the_engine_output() {
    let mut w = session(0x01020304);
    w.update(0);
    // The engine counts the payload alone, and the framing the header with it.
    let sent = w.send(&[0; 124], 0).unwrap();
    assert_eq!(sent.len(), 1);
    assert_eq!(sent[0][..6], [4, 3, 2, 1, 81, 0]);
    assert!(w.output.buffer.is_empty());
    let late = w.send(&[0; 124], 30_000_000).unwrap();
    assert_eq!(late.len(), 2);
    assert_eq!(w.traffic_shaper.last_heartbeat_us, 30_000_000);
}

#[test]
fn a_message_is_received_once_it_is_whole() {
    let mut w = session(7);
    assert_eq!(w.recv(&push_segment(7, 0, 0, b"hello")).unwrap(), b"hello".to_vec());
    let e = w.recv(&push_segment(7, 1, 1, b"wor")).unwrap_err();
    assert_eq!(e.to_text(), "KCP error: KCP peeksize error: expecting fragment");
    assert_eq!(w.recv(&push_segment(7, 0, 2, b"ld")).unwrap(), b"world".to_vec());
    let e = w.recv(&push_segment(7, 0, 2, b"ld")).unwrap_err();
    assert_eq!(e.to_text(), "KCP error: KCP peeksize error: recv queue is empty");
    assert!(w.recv(&push_segment(7, 0, 3, b"")).unwrap().is_empty());
}

#[test]
fn bad_packets_are_refused() {
    let mut w = session(7);
    let e = w.recv(&[0; 23]).unwrap_err();
    assert_eq!(
        e.to_text(),
        "KCP error: Received packet too small to be a valid KCP packet"
    );
    let e = w.recv(&push_segment(8, 0, 0, b"x")).unwrap_err();
    assert_eq!(
        e.to_text(),
        "KCP error: KCP input error: conv inconsistent, expected 7, found 8"
    );
    assert!(KcpWrapper::admits(&[0; 24]) && !KcpWrapper::admits(&[0; 23]));
}

#[test]
fn numbers_that_do_not_fit_are_told() {
    let mut w = session(7);
    assert!(!w.reads(&push_segment(7, 255, 0, b"x")));
    let mut far = push_segment(7, 0, 0, b"x");
    far[15] = 0x40;
    assert!(!w.reads(&far));
    let mut una = push_segment(7, 0, 0, b"x");
    una[19] = 0x80;
    assert!(!w.reads(&una));
    // The time of data is handed back, and never compared.
    let mut late = push_segment(7, 0, 0, b"late");
    late[11] = 0xFF;
    assert!(w.reads(&late));
    assert_eq!(w.recv(&late).unwrap(), b"late".to_vec());
    let mut ack = push_segment(7, 0, 0, b"");
    ack[4] = 82;
    ack[11] = 0xFF;
    assert!(!w.reads(&ack));
    // The numbers behind a refused segment are not looked at, nor those of a short packet.
    let mut two = push_segment(8, 0, 0, b"x");
    two.extend_from_slice(&far);
    assert!(w.reads(&two) && w.reads(&[0xFF; 23]));
    assert_eq!(
        w.recv(&two).unwrap_err().to_text(),
        "KCP error: KCP input error: conv inconsistent, expected 7, found 8"
    );
    assert!(check_packet(7, &push_segment(7, 254, 0, b"x")));
    let mut pair = push_segment(7, 0, 1, b"xy");
    pair.extend_from_slice(&far);
    assert!(!check_packet(7, &pair));
}

#[test]
fn the_latest_time_is_told() {
    let mut w = session(7);
    assert!(w.send(&[1], 0).is_err());
    w.update(LATEST_MS);
    assert!(w.send(&[1], 0).is_ok());
    assert_eq!(w.wait_snd(), 2);
}

#[test]
fn a_session_tells_how_much_room_it_has() {
    let mut w = session(7);
    w.update(0);
    assert!(w.room());
    assert!(w.send(&[0; 1377], 0).is_ok());
    assert_eq!(w.pieces, 2);
    w.pieces = MOST_PIECES - 127;
    assert!(!w.room());
}

#[test]
fn a_second_message_waits_for_its_turn() {
    let mut w = session(7);
    let mut both = push_segment(7, 0, 0, b"first");
    both.extend_from_slice(&push_segment(7, 0, 1, b"second"));
    assert_eq!(w.recv(&both).unwrap(), b"first".to_vec());
    assert_eq!(w.recv(&push_segment(7, 0, 2, b"third")).unwrap(), b"second".to_vec());
}

#[test]
fn an_acknowledged_piece_waits_no_more() {
    let mut w = session(7);
    w.update(0);
    w.send(&[1], 0).unwrap();
    assert_eq!(w.wait_snd(), 1);
    let mut ack = push_segment(7, 0, 0, &[]);
    ack[4] = 82;
    assert!(w.recv(&ack).is_err());
    assert_eq!(w.wait_snd(), 0);
}

#[test]
fn output_is_taken_once() {
    let mut o = KcpOutput::default();
    assert_eq!(o.write(&[1, 2]), 2);
    assert_eq!(o.write(&[3]), 1);
    assert_eq!(o.take(), vec![1, 2, 3]);
    assert!(o.take().is_empty());
}

#[test]
fn output_is_framed() {
    let mut w = session(1);
    let mut raw = write_segment(1, 0, 0, 0, 0, 25, &[1]);
    raw.extend_from_slice(&write_segment(1, 0, 0, 1, 0, 26, &[2, 2]));
    let sent = w.after_send(&raw, 1);
    assert_eq!(sent.len(), 2);
    for p in &sent {
        assert!(p.len() >= 60 && p.len() <= 80);
        assert_eq!(length_in(p), p.len());
    }
    assert_eq!(w.frame(&raw).len(), 2);
    assert_eq!(w.after_send(&raw, 30_000_000).len(), 3);
    assert_eq!(w.traffic_shaper.last_heartbeat_us, 30_000_000);
}

#[test]
fn engine_faults_say_what_failed() {
    let why = || "x".to_string();
    let cases = vec![
        (KcpFault::Mtu(why()), "KCP error: Failed to set MTU: x"),
        (KcpFault::Send(why()), "KCP error: KCP send error: x"),
        (KcpFault::Flush(why()), "KCP error: KCP flush error: x"),
        (KcpFault::Input(why()), "KCP error: KCP input error: x"),
        (KcpFault::Peek(why()), "KCP error: KCP peeksize error: x"),
        (KcpFault::Recv(why()), "KCP error: KCP recv error: x"),
    ];
    for (fault, text) in cases {
        assert_eq!(fault.into_error().to_text(), text);
    }
}

#[test]
fn built_in_profiles_are_there() {
    let cs2 = fallback_profile("cs2");
    assert_eq!(cs2.name, "cs2");
    assert_eq!((cs2.packet_size_min, cs2.packet_size_max, cs2.frequency_hz), (80, 400, 64));
    assert_eq!(cs2.size_distribution.len(), 4);
    let minecraft = fallback_profile("minecraft");
    assert_eq!(minecraft.heartbeat_interval_ms, 20000);
    assert_eq!(minecraft.jitter_ms, 100);
    let other = fallback_profile("unknown");
    assert_eq!(other.name, "valorant");
    assert!(other.burst_patterns.is_empty());
    assert_eq!(default_direction_ratio(), (600_000, 1_000_000));
}

#[test]
fn loaded_profiles_take_the_place_of_built_in_ones() {
    let mut own = GamingProfile::default();
    own.name = "mine".to_string();
    let all = GamingProfile::default_profiles(vec![None, Some(own), None]);
    let names: Vec<&str> = all.iter().map(|p| p.0.as_str()).collect();
    assert_eq!(names, vec!["valorant", "cs2", "minecraft"]);
    assert_eq!(all[1].1.name, "mine");
    assert_eq!(all[2].1.packet_size_max, 1400);
}

#[test]
fn profile_files_are_named_and_blamed() {
    assert_eq!(GamingProfile::file_path("cs2"), "config/gaming-profiles/cs2.json");
    assert_eq!(
        GamingProfile::read_failure("p", "gone").to_text(),
        "Configuration error: Failed to read profile file p: gone"
    );
    assert_eq!(
        GamingProfile::parse_failure("p", "bad").to_text(),
        "Configuration error: Failed to parse profile p: bad"
    );
}
