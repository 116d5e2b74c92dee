use phantom::masking::adversarial::{
    generate_poisoning_decision, show_duration, AdversarialMasker, MaskingDecision, MaskingDraws,
    PacketDirection, PacketRecord, DEFAULT_WINDOW_SIZE, MAX_PACKET_SIZE,
};
use phantom::masking::averages::{compute_distance, Averages, Factors, Sighting};
use phantom::masking::periodicity::{flow_periodicity, masker_periodicity};
use phantom::masking::profiles::{GamingProfile, GaussianComponentDef, TimingBinDef};
use phantom::masking::statistical_model::{StatisticalGameTrafficModel, ROLL_RANGE};
use phantom::masking::traffic_target::{
    build_empirical_cdf, draw_gap_samples, sample_quantile, TrafficTarget,
};
use phantom::utils::stats::percentile;
use rand::Rng;

fn make_test_model() -> TrafficTarget {
    let profile = GamingProfile {
        name: "test".to_string(),
        packet_size_min: 60,
        packet_size_max: 300,
        heartbeat_interval_ms: 30000,
        jitter_ms: 50,
        frequency_hz: 60,
        size_distribution: vec![GaussianComponentDef {
            mean_micro: 150_000_000,
            std_dev_micro: 40_000_000,
            weight_micro: 1_000_000,
        }],
        timing_distribution: vec![
            TimingBinDef { time_us: 16_000, probability_micro: 700_000 },
            TimingBinDef { time_us: 33_000, probability_micro: 300_000 },
        ],
        burst_patterns: Vec::new(),
        client_server_size_ratio_micro: (500_000, 1_000_000),
        entropy_profile: None,
    };
    let model = StatisticalGameTrafficModel::from_profile(&profile).unwrap();
    let sizes: Vec<u64> = (100..=200).map(|x| 1_000_000 * x).collect();
    let gaps = draw_gap_samples(&model);
    TrafficTarget::from_model(&model, &sizes, &sizes, &gaps)
}

fn record(size: usize, direction: PacketDirection, time_us: u64, entropy: u64) -> PacketRecord {
    PacketRecord { size, direction, timestamp_us: time_us, payload_entropy_micro: entropy }
}

#[test]
fn test_adversarial_masker_creation() {
    let model = make_test_model();
    let masker = AdversarialMasker::new(model);
    assert!(masker.is_ok());
    let masker = masker.unwrap();
    assert_eq!(masker.window_size, DEFAULT_WINDOW_SIZE);
    assert_eq!(masker.dpi_window.len(), 0);
}

#[test]
fn test_decide_returns_valid_decision() {
    let model = make_test_model();
    let mut masker = AdversarialMasker::new(model).unwrap();
    let data = vec![0u8; 128];
    let decision = masker.decide(&data, 0, 0);
    match decision {
        MaskingDecision::SendNow
        | MaskingDecision::Delay(_)
        | MaskingDecision::Pad(_)
        | MaskingDecision::Split(_)
        | MaskingDecision::Merge
        | MaskingDecision::Drop => {}
    }
}

#[test]
fn test_update_statistics() {
    let model = make_test_model();
    let mut masker = AdversarialMasker::new(model).unwrap();

    let packet = record(150, PacketDirection::Up, 0, 7_200_000);
    masker.update_statistics(&packet, 0);

    assert_eq!(masker.dpi_window.len(), 1);
    assert_eq!(masker.bytes_up, 150);
    assert_eq!(masker.total_packets, 1);
    assert_eq!(masker.averages.packet_size, 150_000_000);
    assert_eq!(masker.averages.entropy, 7_200_000);
}

#[test]
fn test_feature_distance_initial_zero() {
    let model = make_test_model();
    let masker = AdversarialMasker::new(model).unwrap();
    let distance = masker.compute_feature_distance();
    assert!(distance as f64 >= 0.0);
}

#[test]
fn test_feature_distance_decreases_with_matching_traffic() {
    let model = make_test_model();
    let target_size = (model.size_dist.mean / 1_000_000) as usize;
    let mut masker = AdversarialMasker::new(model).unwrap();

    for i in 0..64usize {
        let direction = if i % 3 == 0 { PacketDirection::Up } else { PacketDirection::Down };
        let packet = record(target_size + (i % 20) - 10, direction, i as u64, 7_500_000);
        masker.update_statistics(&packet, i as u64);
    }

    let distance = masker.compute_feature_distance();
    assert!(distance < 2_000_000);
}

#[test]
fn test_optimize_adjusts_parameters() {
    let model = make_test_model();
    let mut masker = AdversarialMasker::new(model).unwrap();

    for _ in 0..32 {
        masker.decide(&vec![0u8; 200], 0, 0);
    }

    assert!(masker.optimize_counter == 0);
    let _ = masker.compute_feature_distance();
}

#[test]
fn test_window_stats_computation() {
    let model = make_test_model();
    let mut masker = AdversarialMasker::new(model).unwrap();

    for i in 0..32usize {
        let packet = record(100 + i, PacketDirection::Up, 1000 * i as u64, 7_000_000);
        masker.update_statistics(&packet, 1000 * i as u64);
    }

    let stats = masker.window_stats();
    assert_eq!(stats.packet_count, 32);
    assert!(stats.mean_size > 0);
    assert!(stats.std_size > 0);
    assert!(stats.p25_size_x100 <= stats.p50_size_x100);
    assert!(stats.p50_size_x100 <= stats.p75_size_x100);
    assert!(stats.p75_size_x100 <= stats.p95_size_x100);
    assert_eq!(stats.mean_size, 115_500_000);
    assert_eq!(stats.std_size, 9_233_092);
    assert_eq!((stats.min_size, stats.max_size), (100, 131));
    assert_eq!(stats.p50_size_x100, 11_550);
}

#[test]
fn window_forgets_the_oldest() {
    let mut masker = AdversarialMasker::new(make_test_model()).unwrap();
    for i in 0..300usize {
        masker.update_statistics(&record(i, PacketDirection::Down, i as u64, 0), i as u64);
    }
    assert_eq!(masker.dpi_window.len(), DEFAULT_WINDOW_SIZE);
    assert_eq!(masker.dpi_window[0].size, 44);
    assert_eq!(masker.total_packets, 300);
}

#[test]
fn test_decision_recording() {
    let model = make_test_model();
    let mut masker = AdversarialMasker::new(model).unwrap();

    masker.decide(&vec![0u8; 100], 0, 0);
    assert_eq!(masker.recent_decisions.len(), 1);

    for _ in 0..130 {
        masker.decide(&vec![0u8; 100], 0, 0);
    }
    assert!(masker.recent_decisions.len() <= 128);
    assert_eq!(masker.recent_decisions.len(), 128);
}

#[test]
fn recorded_decisions_know_their_size() {
    let mut masker = AdversarialMasker::new(make_test_model()).unwrap();
    masker.record_decision(MaskingDecision::Split(4), 100, 5);
    assert_eq!(masker.recent_decisions[0].effective_size, 25);
    assert_eq!(masker.get_pending_split(), Some(4));
    masker.record_decision(MaskingDecision::Pad(30), 100, 6);
    assert_eq!(masker.recent_decisions[1].effective_size, 130);
    assert_eq!(masker.get_pending_padding(), Some(30));
    assert_eq!(masker.get_pending_split(), None);
    masker.record_decision(MaskingDecision::Delay(9), 100, 7);
    assert_eq!(masker.get_pending_delay(), Some(9));
    masker.record_decision(MaskingDecision::Merge, 100, 8);
    assert_eq!(masker.recent_decisions[3].effective_size, 200);
    assert!(masker.should_merge());
    masker.record_decision(MaskingDecision::Drop, 100, 9);
    assert!(masker.should_drop());
}

#[test]
fn test_percentile_computation() {
    let data = vec![1, 2, 3, 4, 5, 6, 7, 8, 9, 10];
    let p50 = percentile(&data, 50);
    let p25 = percentile(&data, 25);
    let p75 = percentile(&data, 75);

    assert!((p50 as f64 / 100.0 - 5.5).abs() < 0.5);
    assert!(p25 < p50);
    assert!(p50 < p75);
    assert_eq!((p25, p50, p75), (325, 550, 775));
}

#[test]
fn adversarial_test_cdf_interpolation() {
    let model = make_test_model();
    let mut rng = rand::thread_rng();

    for _ in 0..100 {
        let size = model.sample_target_size(rng.gen_range(0..ROLL_RANGE));
        assert!(size >= model.size_dist.min);
        assert!(size <= model.size_dist.max);

        let iat = model.sample_target_iat(rng.gen_range(0..ROLL_RANGE));
        assert!(iat > 0);
    }
}

#[test]
fn quantiles_interpolate_between_steps() {
    let samples: Vec<u64> = (0..64).rev().collect();
    let table = build_empirical_cdf(&samples);
    assert_eq!(table.len(), 64);
    assert_eq!(table[0], 0);
    assert_eq!(table[63], 62);
    assert_eq!(sample_quantile(&table, 0), 0);
    // Half of 63 steps lies between two of them.
    let (a, b) = (table[31], table[32]);
    assert_eq!(sample_quantile(&table, ROLL_RANGE / 2), (a + b) / 2);
}

#[test]
fn test_small_packet_forces_padding() {
    let model = make_test_model();
    let mut masker = AdversarialMasker::new(model).unwrap();

    let tiny_data = vec![0u8; 10];
    let decision = masker.decide(&tiny_data, 0, 0);

    match decision {
        MaskingDecision::Pad(n) => assert!(n > 0),
        _ => {}
    }
    assert!(matches!(decision, MaskingDecision::Pad(n) if n >= 4 && 10 + n <= MAX_PACKET_SIZE));
}

#[test]
fn test_poisoning_triggers_after_warmup() {
    let model = make_test_model();
    let mut masker = AdversarialMasker::new(model).unwrap();

    for i in 0..20 {
        let packet = record(200, PacketDirection::Up, i, 6_000_000);
        masker.update_statistics(&packet, i);
        masker.decide(&vec![0u8; 200], 0, i);
    }

    let mut rng = rand::thread_rng();
    let mut poison_count = 0;
    for _ in 0..200 {
        if masker.should_poison(rng.gen_range(0..ROLL_RANGE)) {
            poison_count += 1;
        }
    }
    assert!(poison_count > 0);
    // At least eight in a hundred, at most a quarter.
    assert!(masker.should_poison(ROLL_RANGE / 100 * 7));
    assert!(!masker.should_poison(ROLL_RANGE / 100 * 26));
}

#[test]
fn nothing_is_poisoned_before_the_warmup() {
    let masker = AdversarialMasker::new(make_test_model()).unwrap();
    assert!(!masker.should_poison(0));
}

fn draws() -> MaskingDraws {
    MaskingDraws {
        poison_roll: 0,
        poison_size_roll: 0,
        poison_gap_roll: 0,
        size_roll: ROLL_RANGE / 2,
        gap_roll: ROLL_RANGE / 2,
        jitter_ns: 0,
        delay_roll: 0,
        burst_roll: 0,
    }
}

#[test]
fn poisoned_packets_are_padded_by_a_quarter() {
    let target = make_test_model();
    // One deviation below the mean is 110 bytes.
    assert_eq!(generate_poisoning_decision(&target, &draws()), MaskingDecision::Pad(27));
}

#[test]
fn early_packets_wait() {
    let mut masker = AdversarialMasker::new(make_test_model()).unwrap();
    // The first packet comes after no gap at all.
    let d = masker.decide_with(&[0; 150], &draws(), 1_000_000);
    assert!(matches!(d, MaskingDecision::Delay(ms) if (13..=36).contains(&ms)));
    // A second later nothing is early.
    let d = masker.decide_with(&[0; 150], &draws(), 2_000_000);
    assert!(!matches!(d, MaskingDecision::Delay(_)));
}

#[test]
fn averages_move_by_a_twentieth() {
    let mut a = Averages::new();
    let mut s = Sighting {
        size: 100,
        entropy_micro: 7_000_000,
        gap_us: None,
        bytes_up: 100,
        bytes_down: 0,
        burst_count: 1,
        burst_window_ms: 1_000,
    };
    a.update(&s, 60);
    assert_eq!(a.packet_size, 100_000_000);
    assert_eq!(a.inter_packet_time, 0);
    assert_eq!(a.direction_ratio, 525_000_000_000);
    s.size = 300;
    s.gap_us = Some(16_000);
    a.update(&s, 60);
    assert_eq!(a.packet_size, 110_000_000);
    assert_eq!(a.inter_packet_time, 16_000_000);
}

#[test]
fn a_flow_on_target_is_at_no_distance() {
    let t = make_test_model();
    let a = Averages {
        packet_size: t.size_dist.mean as u128,
        inter_packet_time: t.timing_dist.mean_iat,
        burstiness: 0,
        entropy: t.target_entropy,
        direction_ratio: 1_000_000 * t.direction_ratio as u64,
    };
    assert_eq!(compute_distance(&a, &t, 0), 0);
}

#[test]
fn regularity_of_beats() {
    let steady = vec![5_000u64; 40];
    assert_eq!(flow_periodicity(&steady, 1000), 0);
    assert_eq!(masker_periodicity(&steady), 0);
    let swinging: Vec<u64> = (0..40).map(|i| if i % 2 == 0 { 4_000 } else { 6_000 }).collect();
    assert!(masker_periodicity(&swinging) > 500_000);
}

#[test]
fn every_time_of_the_burst_window_counts() {
    let mut masker = AdversarialMasker::new(make_test_model()).unwrap();
    masker.burst_window.push_back(0);
    for i in 0..4999u64 {
        masker.burst_window.push_back(100 + i);
    }
    // One gap of a hundred before thousands of one.
    assert_eq!(masker.compute_current_burstiness(5099), 1_372_882);
}

#[test]
fn large_packets_move_the_averages_in_full() {
    let mut masker = AdversarialMasker::new(make_test_model()).unwrap();
    masker.update_statistics(&record(3_000_000, PacketDirection::Up, 0, 0), 0);
    assert_eq!(masker.averages.packet_size, 3_000_000_000_000);
    masker.update_statistics(&record(3_000_000, PacketDirection::Up, 0, 0), 5_000_000_000);
    assert_eq!(masker.averages.inter_packet_time, 5_000_000_000_000);
    assert_eq!(masker.window_stats().max_size, 3_000_000);
}

#[test]
fn decisions_as_text() {
    assert_eq!(MaskingDecision::SendNow.to_text(), "SendNow");
    assert_eq!(MaskingDecision::Delay(15).to_text(), "Delay(15ms)");
    assert_eq!(MaskingDecision::Pad(7).to_text(), "Pad(7)");
    assert_eq!(MaskingDecision::Split(3).to_text(), "Split(3)");
    assert_eq!(show_duration(0), "0ns");
    assert_eq!(show_duration(1500), "1.5s");
    assert_eq!(show_duration(2042), "2.042s");
}

#[test]
fn factors_follow_the_averages() {
    let t = make_test_model();
    let mut f = Factors::new();
    let mut a = Averages::new();
    f.adapt(&a, &t, 0);
    assert_eq!(f, Factors::new());
    // Twice as large as wanted: pad less, split sooner.
    a.packet_size = 2 * t.size_dist.mean as u128;
    f.adapt(&a, &t, 0);
    assert_eq!((f.padding, f.split, f.merge), (920_000, 1_900_000, 500_000));
    // Half as large and twice as fast.
    a.packet_size = t.size_dist.mean as u128 / 2;
    a.inter_packet_time = t.timing_dist.mean_iat / 2;
    f.adapt(&a, &t, 1_000_000);
    assert_eq!((f.padding, f.merge, f.delay), (993_600, 475_000, 1_100_000));
    assert_eq!(f.phase_x100, 17);
}
