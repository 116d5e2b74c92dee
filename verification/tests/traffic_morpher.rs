use phantom::masking::adversarial::MaskingDecision;
use phantom::masking::burst_engine::{
    BurstSamples, StatisticalGameTrafficModel as BurstTrafficModel,
};
use phantom::masking::game_packet::{
    frame_packet, parse_packet, FragmentState, GamePacketType, HEADER_SIZE, MAGIC_BYTE,
};
use phantom::masking::profiles::{
    BurstPatternDef, EntropyProfileDef, GamingProfile, GaussianComponentDef, TimingBinDef,
};
use phantom::masking::reassembly::ReassemblyBuffer;
use phantom::masking::statistical_model::StatisticalGameTrafficModel;
use phantom::masking::traffic_morpher::{delay_from, samples_for, PacketSample, TrafficMorpher};
use phantom::masking::traffic_target::{draw_gap_samples, TrafficTarget};
use rand::rngs::StdRng;
use rand::{Rng, SeedableRng};
use rand_distr::{Distribution, Normal};

fn test_profile() -> GamingProfile {
    GamingProfile {
        name: "test_game".to_string(),
        packet_size_min: 60,
        packet_size_max: 400,
        heartbeat_interval_ms: 30000,
        jitter_ms: 50,
        frequency_hz: 60,
        size_distribution: vec![
            GaussianComponentDef {
                mean_micro: 90_000_000,
                std_dev_micro: 15_000_000,
                weight_micro: 500_000,
            },
            GaussianComponentDef {
                mean_micro: 200_000_000,
                std_dev_micro: 50_000_000,
                weight_micro: 300_000,
            },
            GaussianComponentDef {
                mean_micro: 350_000_000,
                std_dev_micro: 40_000_000,
                weight_micro: 200_000,
            },
        ],
        timing_distribution: vec![
            TimingBinDef { time_us: 16_670, probability_micro: 650_000 },
            TimingBinDef { time_us: 33_330, probability_micro: 200_000 },
            TimingBinDef { time_us: 50_000, probability_micro: 150_000 },
        ],
        burst_patterns: vec![
            BurstPatternDef {
                name: "movement".to_string(),
                packet_count_range: (2, 5),
                inter_packet_time_range_us: (10_000, 25_000),
                size_range: (60, 120),
                probability_micro: 600_000,
            },
            BurstPatternDef {
                name: "shooting".to_string(),
                packet_count_range: (3, 8),
                inter_packet_time_range_us: (5_000, 15_000),
                size_range: (80, 180),
                probability_micro: 400_000,
            },
        ],
        client_server_size_ratio_micro: (500_000, 1_000_000),
        entropy_profile: Some(EntropyProfileDef {
            mean_entropy_micro: 7_200_000,
            entropy_std_micro: 300_000,
        }),
    }
}

/// A size drawn from the model's mixture, in bytes.
fn draw_size(model: &StatisticalGameTrafficModel) -> usize {
    let c = model.size_distribution[model.draw_size_component()];
    let normal = Normal::new(c.mean_micro as f64, c.std_dev_micro as f64).unwrap();
    StatisticalGameTrafficModel::sample_packet_size(normal.sample(&mut rand::thread_rng()) as i64)
}

fn make_morpher() -> TrafficMorpher {
    let profile = test_profile();
    let model = StatisticalGameTrafficModel::from_profile(&profile).unwrap();
    let burst_model = BurstTrafficModel::from_profile(&profile).unwrap();
    let sizes: Vec<u64> = (0..512).map(|_| 1_000_000 * draw_size(&model) as u64).collect();
    let gaps = draw_gap_samples(&model);
    let target = TrafficTarget::from_model(&model, &sizes, &sizes, &gaps);
    TrafficMorpher::new(model, burst_model, target, 0).unwrap()
}

/// Samples for `n` packets.
fn draw_samples(morpher: &TrafficMorpher, n: usize) -> Vec<PacketSample> {
    (0..n)
        .map(|_| PacketSample {
            target_size: draw_size(&morpher.statistical_model) as u16,
            delay_ms: morpher.compute_inter_packet_delay(0),
            now_ms: 7,
        })
        .collect()
}

fn samples_of(morpher: &TrafficMorpher, len: usize) -> Vec<PacketSample> {
    draw_samples(morpher, 2 + len / 16)
}

#[test]
fn test_morpher_creation() {
    let morpher = make_morpher();
    assert_eq!(morpher.sequence(), 0);
    assert_eq!(morpher.buffered_data_len(), 0);
    assert_eq!(morpher.game_name(), "test_game");
}

#[test]
fn test_morph_small_data_produces_packets() {
    let mut morpher = make_morpher();
    let data = vec![0xDEu8; 100];
    let samples = samples_of(&morpher, data.len());
    let packets = morpher.morph(data, &samples);

    assert!(!packets.is_empty());
    for packet in &packets {
        assert!(packet.data.len() >= HEADER_SIZE);
        assert!(packet.data[0] == MAGIC_BYTE);
    }
}

#[test]
fn test_morph_large_data_produces_fragments() {
    let mut morpher = make_morpher();
    let data = vec![0xABu8; 5000];
    let samples = samples_of(&morpher, data.len());
    let packets = morpher.morph(data, &samples);

    assert!(packets.len() > 1);
    for packet in &packets {
        assert!(packet.data.len() >= HEADER_SIZE);
        assert!(packet.data[0] == MAGIC_BYTE);
    }
}

#[test]
fn test_morph_empty_data_produces_keepalive() {
    let mut morpher = make_morpher();
    let samples = samples_of(&morpher, 0);
    let packets = morpher.morph(Vec::new(), &samples);

    assert_eq!(packets.len(), 1);
    assert_eq!(packets[0].packet_type, GamePacketType::Keepalive);
    assert_eq!(morpher.sequence(), 1);
}

#[test]
fn test_demorph_roundtrip_small() {
    let mut morpher = make_morpher();
    let original = vec![0x42u8; 128];
    let samples = samples_of(&morpher, original.len());
    let packets = morpher.morph(original.clone(), &samples);

    let recovered = morpher.demorph(packets);
    assert!(recovered.is_some());
    assert_eq!(recovered.unwrap(), original);
}

#[test]
fn test_demorph_roundtrip_large() {
    let mut morpher = make_morpher();
    let mut original = vec![0u8; 10000];
    let mut rng = StdRng::seed_from_u64(42);
    rng.fill(&mut original[..]);

    let samples = samples_of(&morpher, original.len());
    let packets = morpher.morph(original.clone(), &samples);
    let recovered = morpher.demorph(packets);

    assert!(recovered.is_some());
    assert_eq!(recovered.unwrap(), original);
}

#[test]
fn test_demorph_roundtrip_binary_data() {
    let mut morpher = make_morpher();
    let original: Vec<u8> = (0..255).cycle().take(2048).collect();
    let samples = samples_of(&morpher, original.len());
    let packets = morpher.morph(original.clone(), &samples);
    let recovered = morpher.demorph(packets);

    assert!(recovered.is_some());
    assert_eq!(recovered.unwrap(), original);
}

#[test]
fn test_no_data_loss_across_multiple_morph_calls() {
    let mut morpher = make_morpher();
    let datasets: Vec<Vec<u8>> = (0..10usize).map(|i| vec![i as u8; 500 + i * 100]).collect();

    for original in datasets {
        let samples = samples_of(&morpher, original.len());
        let packets = morpher.morph(original.clone(), &samples);
        let recovered = morpher.demorph(packets);
        assert!(recovered.is_some(), "Data loss detected");
        assert_eq!(recovered.unwrap(), original);
    }
}

#[test]
fn test_packet_types_are_varied() {
    let mut morpher = make_morpher();
    let data = vec![0u8; 3000];
    let samples = samples_of(&morpher, data.len());
    let packets = morpher.morph(data, &samples);

    let types: Vec<_> = packets.iter().map(|p| p.packet_type).collect();
    assert!(!types.is_empty());
}

#[test]
fn test_sequence_numbers_increment() {
    let mut morpher = make_morpher();
    let data = vec![0u8; 2000];
    let samples = samples_of(&morpher, data.len());
    let packets = morpher.morph(data, &samples);

    for i in 1..packets.len() {
        assert!(packets[i].sequence > packets[i - 1].sequence);
    }
    assert_eq!(morpher.sequence(), packets.len() as u64);
}

#[test]
fn test_delays_are_nonzero() {
    let mut morpher = make_morpher();
    let data = vec![0u8; 500];
    let samples = samples_of(&morpher, data.len());
    let packets = morpher.morph(data, &samples);

    for packet in &packets {
        assert!(packet.delay_us > 0);
    }
}

#[test]
fn test_delays_are_reasonable() {
    let mut morpher = make_morpher();
    let data = vec![0u8; 500];
    let samples = samples_of(&morpher, data.len());
    let packets = morpher.morph(data, &samples);

    for packet in &packets {
        assert!(packet.delay_us < 5_000_000);
    }
}

#[test]
fn test_fragment_state_encoding_decoding() {
    let state = FragmentState::new(2, 5, 128);
    let encoded = state.encode();
    let decoded = FragmentState::decode(encoded);

    assert_eq!(decoded.current_fragment, 2);
    assert_eq!(decoded.total_fragments, 5);
}

#[test]
fn test_fragment_state_single_fragment() {
    let state = FragmentState::new(0, 1, 256);
    let encoded = state.encode();
    let decoded = FragmentState::decode(encoded);

    assert_eq!(decoded.current_fragment, 0);
    assert_eq!(decoded.total_fragments, 1);
}

#[test]
fn fragment_counters_are_cut_off_at_fifteen() {
    assert_eq!(FragmentState::new(20, 40, 0).encode(), 0xFF);
    assert_eq!(FragmentState::new(256, 257, 0).encode(), 0x01);
}

#[test]
fn test_remove_header_invalid_magic() {
    let mut morpher = make_morpher();
    let bad_packet = vec![0x00u8; 32];
    let result = morpher.remove_game_header(&bad_packet);
    assert!(result.is_none());
}

#[test]
fn test_remove_header_too_short() {
    let mut morpher = make_morpher();
    let short_packet = vec![MAGIC_BYTE, 0, 0, 0];
    let result = morpher.remove_game_header(&short_packet);
    assert!(result.is_none());
}

#[test]
fn test_pad_to_target_size() {
    let data = vec![0xFFu8; 50];
    let padded = TrafficMorpher::pad_to_target_size(data.clone(), 200);

    assert!(padded.len() >= 50);
    assert_eq!(&padded[..50], &data[..]);
    assert_eq!(padded.len(), 200 - HEADER_SIZE);
}

#[test]
fn test_pad_no_op_when_already_large() {
    let data = vec![0xFFu8; 500];
    let padded = TrafficMorpher::pad_to_target_size(data.clone(), 200);

    assert_eq!(padded, data);
}

#[test]
fn test_split_oversized() {
    let data = vec![0xCCu8; 3000];
    let chunks = TrafficMorpher::split_oversized(data.clone(), 500);

    assert!(!chunks.is_empty());
    for chunk in &chunks {
        assert!(chunk.len() <= 500);
    }

    let total: usize = chunks.iter().map(|c| c.len()).sum();
    assert_eq!(total, data.len());
}

#[test]
fn test_split_no_op_when_under_size() {
    let data = vec![0xCCu8; 100];
    let chunks = TrafficMorpher::split_oversized(data.clone(), 500);

    assert_eq!(chunks.len(), 1);
    assert_eq!(chunks[0], data);
}

#[test]
fn test_feature_distance_is_nonnegative() {
    let morpher = make_morpher();
    let distance = morpher.get_feature_distance();
    assert!(distance as f64 >= 0.0);
}

fn burst_samples() -> BurstSamples {
    BurstSamples {
        now_us: 0,
        clock_ms: 0,
        inter_burst_ms: 5_000,
        packet_count: 4,
        inter_packet_delay_ms: 12,
        burst_sizes: [90; 5],
        idle_sizes: [100; 2],
        idle_delays_ms: [100; 2],
        cooldown_ms: 1_000,
        cooldown_size: 100,
        cooldown_delay_ms: 500,
    }
}

#[test]
fn test_process_burst_with_data() {
    let mut morpher = make_morpher();
    let units = morpher.begin_burst(vec![0x11u8; 200], &burst_samples());
    let needed = samples_for(&units) as usize;
    let samples = draw_samples(&morpher, needed);
    let packets = morpher.process_burst(units, &samples);

    assert!(!packets.is_empty());
    for packet in &packets {
        assert!(packet.data[0] == MAGIC_BYTE);
    }
}

#[test]
fn a_burst_carries_its_data() {
    let mut morpher = make_morpher();
    let data: Vec<u8> = (0..200u8).collect();
    let units = morpher.begin_burst(data.clone(), &burst_samples());
    // Pieces of 90 bytes come first, in order.
    let mut sent = Vec::new();
    for unit in units.iter().take(3) {
        sent.extend_from_slice(&unit.payload);
    }
    assert_eq!(sent, data);
    let payloads: Vec<Vec<u8>> = units.iter().map(|u| u.payload.clone()).collect();
    let needed = samples_for(&units) as usize;
    let samples = draw_samples(&morpher, needed);
    let packets = morpher.process_burst(units, &samples);
    for p in &packets {
        assert!(p.delay_us >= 7_000);
    }
    assert_eq!(morpher.demorph(packets).unwrap(), payloads.concat());
}

#[test]
fn test_next_action_delay_returns_valid() {
    let morpher = make_morpher();
    let delay = morpher.next_action_delay(800);
    assert!(delay > 0);
    assert!(delay < 30_000_000);
    assert_eq!(delay, 800_000);
    assert_eq!(morpher.next_action_delay(0), 50_000);
    assert_eq!(morpher.next_action_delay(9_000_000), 5_000_000);
}

#[test]
fn test_conversation_id_is_stable() {
    let morpher = make_morpher();
    let cid1 = morpher.conversation_id();
    let cid2 = morpher.conversation_id();
    assert_eq!(cid1, cid2);
}

#[test]
fn test_morph_demorph_exact_byte_preservation() {
    let mut morpher = make_morpher();
    let original: Vec<u8> = (0..=255u8).flat_map(|b| std::iter::repeat(b).take(17)).collect();

    let samples = samples_of(&morpher, original.len());
    let packets = morpher.morph(original.clone(), &samples);
    let recovered = morpher.demorph(packets);

    assert!(recovered.is_some());
    let recovered = recovered.unwrap();
    assert_eq!(recovered.len(), original.len());
    assert_eq!(recovered, original);
}

#[test]
fn groups_received_out_of_order_are_put_together() {
    let mut morpher = make_morpher();
    let sample = PacketSample { target_size: 64, delay_ms: 0, now_ms: 9 };
    let data: Vec<u8> = (0..100u8).collect();
    let mut packets = morpher.morph(data.clone(), &[sample; 20]);
    // Forty bytes fit a packet of 64.
    assert_eq!(packets.len(), 3);
    assert_eq!(packets[0].delay_us, 1_000);
    assert_eq!(morpher.fragment_state.current_fragment, 2);
    assert_eq!(morpher.fragment_state.total_fragments, 3);
    assert_eq!(morpher.fragment_state.fragment_size, 20);
    packets.reverse();
    let last = packets.pop().unwrap();
    assert_eq!(morpher.demorph(packets), None);
    assert_eq!(morpher.remove_game_header(&last.data), Some((data, 0)));
}

#[test]
fn packets_on_the_wire() {
    let packet = frame_packet(
        0x0403_0201,
        GamePacketType::Voice,
        &FragmentState::new(1, 2, 3),
        0x0A0B_0C0D,
        0x1_0000_0005,
        300,
        3,
        &[9, 8, 7, 6],
    );
    assert_eq!(
        packet,
        vec![
            0xA7, 1, 2, 3, 5, 0x12, 32, 0, 0x0D, 0x0C, 0x0B, 0x0A, 5, 0, 0, 0, 44, 1, 0, 0, 3, 0,
            0, 0, 9, 8, 7, 6,
        ]
    );
    let frame = parse_packet(&packet).unwrap();
    assert_eq!(frame.payload, vec![9, 8, 7]);
    // A packet that holds fewer bytes than it says is none.
    assert!(parse_packet(&packet[..26]).is_none());
    assert_eq!(GamePacketType::from_byte(5), Some(GamePacketType::Voice));
    assert_eq!(GamePacketType::from_byte(6), None);
    assert_eq!(GamePacketType::select_by_draw(700, 0), GamePacketType::Action);
    assert_eq!(GamePacketType::select_by_draw(400, 0), GamePacketType::Voice);
}

#[test]
fn fragments_join_in_order() {
    let mut buffer = ReassemblyBuffer::new(2, 5);
    assert!(!buffer.is_complete());
    buffer.insert(1, vec![4, 5]);
    assert!(!buffer.is_complete());
    buffer.insert(0, vec![1, 2, 3]);
    assert!(buffer.is_complete());
    assert_eq!(buffer.reassemble(), vec![1, 2, 3, 4, 5]);
}

#[test]
fn buffered_data_goes_out_in_full_packets() {
    let mut morpher = make_morpher();
    morpher.data_buffer = (0..100u8).collect();
    let merged = morpher.merge_small_packets(64);
    assert_eq!(merged.len(), 2);
    assert_eq!(merged[1], (40..80u8).collect::<Vec<u8>>());
    assert_eq!(morpher.buffered_data_len(), 20);
}

#[test]
fn decisions_come_from_the_masker() {
    let mut morpher = make_morpher();
    // No room for a smaller packet than three bytes: it has to be padded or sent as it is.
    let d = morpher.apply_adversarial_decision(&[1, 2, 3], 0, 0);
    assert!(!matches!(d, MaskingDecision::Split(_)));
}

#[test]
fn whatever_is_there_is_joined_in_order() {
    let mut buffer = ReassemblyBuffer::new(3, 5);
    buffer.insert(7, vec![7, 7, 7]);
    buffer.insert(2, vec![1]);
    buffer.insert(2, vec![2, 2]);
    buffer.insert(0, vec![0]);
    assert!(!buffer.is_complete());
    assert_eq!(buffer.reassemble(), vec![0, 2, 2, 7, 7]);
    assert!(ReassemblyBuffer::new(2, 9).reassemble().is_empty());
}

#[test]
fn a_delay_follows_its_draws() {
    assert_eq!(delay_from(16_000, 3_000, 0), 16);
    assert_eq!(delay_from(16_000, 6_000, 2_000), 21);
    assert_eq!(delay_from(500, 0, 4_000), 5);
    assert_eq!(delay_from(16_000, 3_000, -90_000), 1);
    assert_eq!(delay_from(u64::MAX, 6_000, 0), u32::MAX);
}
