use phantom::masking::protocol_blender::{
    create_default_profiles, entropy_to_byte_range, gap_to_wait, size_to_send, BlendSample,
    DirectionPattern, EncryptionType, ProtocolBlender, ProtocolProfile, ProtocolSignature,
    ProtocolStatistics, WHOLE,
};
use phantom::masking::statistical_model::GaussianComponent;
use rand::rngs::StdRng;
use rand::SeedableRng;
use rand_distr::{Distribution, Normal};

fn component(mean: i64, std_dev: i64, weight_micro: u64) -> GaussianComponent {
    GaussianComponent {
        mean_micro: 1_000_000 * mean,
        std_dev_micro: 1_000_000 * std_dev,
        weight_micro,
    }
}

fn test_profiles() -> Vec<ProtocolProfile> {
    vec![
        ProtocolProfile {
            name: "test_a".to_string(),
            packet_size_dist: vec![component(100, 20, 600_000), component(300, 50, 400_000)],
            timing_dist: vec![(20_000, 700_000), (50_000, 300_000)],
            port_range: (8000, 8100),
            protocol_signature: ProtocolSignature {
                header_pattern: vec![0xAA, 0xBB],
                typical_ports: vec![8000],
                encryption_type: EncryptionType::Tls,
                direction_pattern: DirectionPattern::ClientHeavy,
            },
        },
        ProtocolProfile {
            name: "test_b".to_string(),
            packet_size_dist: vec![component(200, 40, 500_000), component(500, 100, 500_000)],
            timing_dist: vec![(10_000, 500_000), (30_000, 300_000), (60_000, 200_000)],
            port_range: (9000, 9100),
            protocol_signature: ProtocolSignature {
                header_pattern: vec![0xCC, 0xDD],
                typical_ports: vec![9000],
                encryption_type: EncryptionType::Dtls,
                direction_pattern: DirectionPattern::Symmetric,
            },
        },
    ]
}

fn test_blender() -> ProtocolBlender {
    ProtocolBlender::new(test_profiles()).unwrap()
}

/// The entropy of the weights in parts of the greatest, and the logarithms of the counts.
fn measures(blender: &ProtocolBlender) -> (u64, Vec<u64>) {
    let n = blender.blend_weights().len() as f64;
    let entropy: f64 = blender
        .blend_weights()
        .iter()
        .map(|&w| w as f64 / 1e24)
        .filter(|w| *w > 0.0)
        .map(|w| -w * w.ln())
        .sum();
    let variety = (entropy / n.ln()).clamp(0.0, 1.0);
    let logs = blender
        .protocol_stats()
        .iter()
        .map(|s| ((s.packet_count.max(1) as f64).ln() * 1e6) as u64)
        .collect();
    ((variety * 1e6) as u64, logs)
}

fn adapt(blender: &mut ProtocolBlender, risk_micro: i64) {
    let (variety, logs) = measures(blender);
    blender.adapt_weights(risk_micro, variety, &logs);
}

fn draw(blender: &ProtocolBlender, rng: &mut StdRng) -> BlendSample {
    let c = blender.draw_size_component();
    let size = Normal::new(c.mean_micro as f64, c.std_dev_micro as f64).unwrap().sample(rng);
    let gap_us = blender.draw_gap();
    let jitter = Normal::new(0.0, (gap_us as f64 * 0.05).max(500.0)).unwrap().sample(rng);
    BlendSample {
        size_micro: size as i64,
        gap_us,
        jitter_us: jitter as i64,
        entropy_micro: 4_000_000,
        phase_micro: 500_000,
    }
}

#[test]
fn test_blender_creation() {
    let blender = test_blender();
    assert_eq!(blender.profiles().len(), 2);
    assert_eq!(blender.blend_weights().len(), 2);
    assert!((blender.blend_weights()[0] as f64 / 1e24 - 0.5).abs() < 0.01);
    assert!((blender.blend_weights()[1] as f64 / 1e24 - 0.5).abs() < 0.01);
}

#[test]
fn test_blender_requires_min_profiles() {
    let mut profiles = test_profiles();
    profiles.truncate(1);
    let result = ProtocolBlender::new(profiles);
    assert!(result.is_err());
    assert_eq!(
        result.unwrap_err().to_text(),
        "Configuration error: ProtocolBlender requires at least 2 profiles"
    );
}

#[test]
fn faulty_profiles_are_refused() {
    let mut profiles = test_profiles();
    profiles[1].packet_size_dist.clear();
    assert_eq!(
        ProtocolBlender::new(profiles).unwrap_err().to_text(),
        "Configuration error: Profile 'test_b' has empty packet size distribution"
    );
    let mut profiles = test_profiles();
    profiles[0].timing_dist.clear();
    assert_eq!(
        ProtocolBlender::new(profiles).unwrap_err().to_text(),
        "Configuration error: Profile 'test_a' has empty timing distribution"
    );
    let mut profiles = test_profiles();
    for c in profiles[0].packet_size_dist.iter_mut() {
        c.weight_micro = 0;
    }
    assert_eq!(
        ProtocolBlender::new(profiles).unwrap_err().to_text(),
        "Configuration error: Profile 'test_a' has zero total weight in size distribution"
    );
}

#[test]
fn test_select_protocol() {
    let mut blender = test_blender();

    for _ in 0..100 {
        let idx = blender.select_protocol();
        assert!(idx < blender.profiles().len());
    }
}

#[test]
fn rolls_select_by_blend() {
    let mut blender = test_blender();
    assert_eq!(blender.select_for_roll(0), 0);
    assert_eq!(blender.switch_counter(), 0);
    assert_eq!(blender.select_for_roll((1 << 53) - 1), 1);
    assert_eq!(blender.switch_counter(), 1);
    assert_eq!(blender.current_profile().name, "test_b");
}

#[test]
fn test_adapt_weights_low_risk() {
    let mut blender = test_blender();

    adapt(&mut blender, 100_000);

    let total: f64 = blender.blend_weights().iter().map(|&w| w as f64 / 1e24).sum();
    assert!((total - 1.0).abs() < 0.01);

    for (i, &w) in blender.blend_weights().iter().enumerate() {
        assert!(w > 0, "Weight {} became non-positive", i);
    }
}

#[test]
fn test_adapt_weights_high_risk() {
    let mut blender = test_blender();
    blender.use_protocol(0);

    adapt(&mut blender, 900_000);

    let total: f64 = blender.blend_weights().iter().map(|&w| w as f64 / 1e24).sum();
    assert!((total - 1.0).abs() < 0.01);

    assert!(blender.blend_weights()[0] < blender.blend_weights()[1]);
}

#[test]
fn weights_move_by_risk() {
    let mut blender = test_blender();
    // Three tenths of the way to 0.5 - 0.9 * 0.3 and 0.5 + 0.9 * 0.3.
    blender.adapt_weights(900_000, 1_000_000, &[0, 0]);
    assert_eq!(blender.blend_weights(), &vec![419_000_000_000_000_000_000_000, 581_000_000_000_000_000_000_000]);
    assert_eq!(blender.blend_weights().iter().sum::<u128>(), WHOLE);
}

#[test]
fn test_blend_packet_padding() {
    let mut blender = test_blender();
    let mut rng = StdRng::seed_from_u64(42);

    blender.use_protocol(0);
    let small_data = vec![0x01, 0x02, 0x03];
    let sample = draw(&blender, &mut rng);
    let result = blender.blend_packet(small_data, &sample).unwrap();

    assert!(result.data.len() >= 3);
    assert!(!result.protocol_hint.is_empty());
    assert!(result.delay_us >= 1_000);
    assert_eq!(&result.data[..3], &[1, 2, 3]);
    assert_eq!(result.size_adjustment, result.data.len() - 3);
}

#[test]
fn test_blend_packet_truncation() {
    let mut blender = test_blender();
    let mut rng = StdRng::seed_from_u64(42);

    blender.use_protocol(0);
    let large_data = vec![0xAB; 2000];
    let sample = draw(&blender, &mut rng);
    let result = blender.blend_packet(large_data, &sample).unwrap();

    assert!(result.data.len() <= 2000);
    assert!(!result.protocol_hint.is_empty());
    assert_eq!(&result.data[..3], &[0xAA, 0xBB, 0xAB]);
    assert_eq!(result.data.len(), 1500);
}

#[test]
fn data_is_brought_to_size() {
    let mut blender = test_blender();
    let p = blender.blend_with(vec![1, 2], 6, 2_000, vec![9, 9, 9, 9], true, true).unwrap();
    assert_eq!(p.data, vec![1, 2, 0xAA, 0xBB, 9, 9]);
    let p = blender.blend_with(vec![1, 2], 6, 2_000, vec![9, 9, 9, 9], false, true).unwrap();
    assert_eq!(p.data, vec![1, 2, 9, 9, 9, 9]);
    let p = blender.blend_with(vec![1, 2, 3, 4, 5], 4, 2_000, vec![], false, false).unwrap();
    assert_eq!(p.data, vec![0xAA, 0xBB, 1, 2]);
    let p = blender.blend_with(vec![1, 2, 3], 3, 2_000, vec![], false, false).unwrap();
    assert_eq!(p.data, vec![1, 2, 3]);
    assert_eq!(blender.protocol_stats()[0].bytes_up, 12);
    assert_eq!(blender.protocol_stats()[0].bytes_down, 7);
}

#[test]
fn rolls_decide_the_stamp_and_the_direction() {
    let mut blender = test_blender();
    let mut rng = StdRng::seed_from_u64(42);
    blender.use_protocol(0);
    let mut sample = draw(&blender, &mut rng);
    sample.size_micro = 42_000_000;
    sample.entropy_micro = 8_000_000;
    let range: u64 = 1 << 53;
    let data = vec![7; blender_target(&blender, &sample) - 4];
    assert_eq!(blender.padding_needed(&data, &sample), 4);
    let at = data.len();
    let noise = vec![9; 4];
    let p = blender.blend_for_rolls(data.clone(), &sample, noise.clone(), 0, 0).unwrap();
    assert_eq!(p.data[at..], [0xAA, 0xBB, 9, 9]);
    assert_eq!(blender.protocol_stats()[0].bytes_up, at as u64 + 4);
    let tenths = range / 10 * 3 + 1;
    let p = blender.blend_for_rolls(data.clone(), &sample, noise.clone(), tenths, range - 1).unwrap();
    assert_eq!(p.data[at..], [9, 9, 9, 9]);
    assert_eq!(blender.protocol_stats()[0].bytes_down, at as u64 + 4);
}

fn blender_target(blender: &ProtocolBlender, sample: &BlendSample) -> usize {
    size_to_send(sample.size_micro, blender.current_profile().port_range.0)
}

#[test]
fn test_protocol_statistics_update() {
    let mut blender = test_blender();
    let mut rng = StdRng::seed_from_u64(42);

    blender.use_protocol(0);
    for _ in 0..50 {
        let data = vec![0x00; 100];
        let sample = draw(&blender, &mut rng);
        let _ = blender.blend_packet(data, &sample);
    }

    let stats = &blender.protocol_stats()[0];
    assert!(stats.packet_count > 0);
    assert!(stats.mean_packet_size() > 0);
    assert_eq!(stats.packet_count, 50);
}

#[test]
fn statistics_of_known_packets() {
    let mut s = ProtocolStatistics::new();
    assert_eq!(s.mean_packet_size(), 0);
    s.update(100, 20_000, true);
    assert_eq!(s.std_packet_size(), 0);
    s.update(300, 40_000, false);
    // Two hundred from the mean before it, its square halved.
    assert_eq!(s.mean_packet_size(), 200_000_000);
    assert_eq!(s.std_packet_size(), 141_421_356);
    assert_eq!(s.mean_inter_packet_time(), 30_000);
    assert_eq!((s.bytes_up, s.bytes_down), (100, 300));
    assert_eq!(s.compute_profile_inertia(9_000_000), 0);
}

#[test]
fn packets_of_any_size_are_measured() {
    let mut s = ProtocolStatistics::new();
    let large = 1usize << 50;
    s.update(large, 0, true);
    s.update(large + 2, 0, true);
    assert_eq!(s.mean_packet_size(), 1_000_000 * (large as u128 + 1));
    assert_eq!(s.std_packet_size(), 1_414_213);
}

#[test]
fn packets_of_one_size_settle() {
    let mut s = ProtocolStatistics::new();
    for _ in 0..10 {
        s.update(100, 20_000, true);
    }
    // Six tenths, and four tenths of a tenth of 2.3.
    assert_eq!(s.compute_profile_inertia(2_300_000), 692_000);
    assert_eq!(s.compute_profile_inertia(20_000_000), 1_000_000);
}

#[test]
fn test_default_profiles() {
    let profiles = create_default_profiles().unwrap();
    assert_eq!(profiles.len(), 4);

    let names: Vec<&str> = profiles.iter().map(|p| p.name.as_str()).collect();
    assert!(names.contains(&"cs2"));
    assert!(names.contains(&"discord_voice"));
    assert!(names.contains(&"spotify"));
    assert!(names.contains(&"generic_https"));
    assert!(ProtocolBlender::new(profiles).is_ok());
}

#[test]
fn test_blend_chi_squared() {
    let blender = test_blender();

    let observed = vec![45, 55];
    let chi_sq = blender.compute_blend_chi_squared(&observed);
    assert!(chi_sq.is_some());
    // (45 - 50)^2 / 50 twice.
    assert_eq!(chi_sq, Some(1_000_000));
    assert_eq!(blender.compute_blend_chi_squared(&[0, 0]), Some(0));
    assert_eq!(blender.compute_blend_chi_squared(&[1]), None);
}

#[test]
fn test_reset_statistics() {
    let mut blender = test_blender();

    for _ in 0..20 {
        let _ = blender.select_protocol();
    }

    blender.reset_statistics();
    assert_eq!(blender.switch_counter(), 0);

    for stats in blender.protocol_stats() {
        assert_eq!(stats.packet_count, 0);
    }
}

#[test]
fn test_profile_by_name() {
    let blender = test_blender();

    assert_eq!(blender.profile_by_name("test_a"), Some(0));
    assert_eq!(blender.profile_by_name("test_b"), Some(1));
    assert_eq!(blender.profile_by_name("nonexistent"), None);
}

#[test]
fn test_direction_upload_probability() {
    let blender = test_blender();

    let client_heavy = blender.direction_upload_probability(0, 0);
    let symmetric = blender.direction_upload_probability(1, 0);

    assert!(client_heavy > 500_000);
    assert!((symmetric as f64 / 1e6 - 0.5).abs() < 0.01);
    assert_eq!((client_heavy, symmetric), (650_000, 500_000));
    assert_eq!(DirectionPattern::Bursty.upload_probability(1_000_000), 700_000);
}

#[test]
fn test_weight_normalization_after_adapt() {
    let mut blender = test_blender();

    for _ in 0..100 {
        adapt(&mut blender, 500_000);
        let total: f64 = blender.blend_weights().iter().map(|&w| w as f64 / 1e24).sum();
        assert!((total - 1.0).abs() < 0.001, "Weights not normalized: {}", total);
    }
}

#[test]
fn sizes_gaps_and_padding_bytes() {
    // A low port number is a lower bound for the size.
    assert_eq!(size_to_send(100_000_000, 443), 443);
    assert_eq!(size_to_send(100_000_000, 8000), 1500);
    assert_eq!(size_to_send(100_400_000, 0), 100);
    assert_eq!(size_to_send(-1, 0), 40);
    assert_eq!(gap_to_wait(20_000, -500), 19_500);
    assert_eq!(gap_to_wait(20_000, -30_000), 1_000);
    assert_eq!(entropy_to_byte_range(0), (96, 96));
    assert_eq!(entropy_to_byte_range(4_000_000), (64, 191));
    assert_eq!(entropy_to_byte_range(9_000_000), (0, 255));
}

#[test]
fn entropy_targets_are_weighted() {
    let blender = test_blender();
    assert_eq!(blender.compute_profile_entropy_target(0, &[4_000_000, 5_000_000]), 4_400_000);
    assert_eq!(blender.compute_profile_entropy_target(1, &[9_000_000, 9_000_000]), 8_000_000);
    assert_eq!(blender.compute_profile_entropy_target(1, &[-9_000_000, 1_000_000]), 0);
}

#[test]
fn kinds_as_text() {
    assert_eq!(EncryptionType::Dtls.to_text(), "dtls");
    assert_eq!(DirectionPattern::ServerHeavy.to_text(), "server_heavy");
}
