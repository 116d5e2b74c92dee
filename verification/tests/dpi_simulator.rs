use phantom::masking::adversarial::{PacketDirection, PacketRecord};
use phantom::masking::dpi_analysis::{
    detectability, generate_recommendations, overall_detectability, plain_target, z_score,
    FeatureVector, Observations,
};
use phantom::masking::dpi_features::{
    DirectionFeatureExtractor, EntropyFeatureExtractor, PeriodicityExtractor,
    SizeFeatureExtractor, TimingFeatureExtractor,
};
use phantom::masking::dpi_signatures::{DpiRegion, DpiSignature, TimingPattern};
use phantom::masking::dpi_simulator::{
    combine_confidence, ClassificationResult, DpiSimulator, FlowPoint, Nearest, RiskLevel,
    TrafficClassifier, TrafficProfile, TrafficType,
};
use phantom::masking::profiles::{
    BurstPatternDef, GamingProfile, GaussianComponentDef, TimingBinDef,
};
use phantom::masking::statistical_model::StatisticalGameTrafficModel;
use phantom::masking::traffic_target::{draw_gap_samples, TrafficTarget};
use phantom::utils::wide::Wide;
use rand::rngs::StdRng;
use rand::SeedableRng;
use rand_distr::{Distribution, Normal};

fn make_test_packet(size: usize, direction: PacketDirection, entropy: f64) -> PacketRecord {
    PacketRecord {
        size,
        direction,
        timestamp_us: 0,
        payload_entropy_micro: (entropy * 1e6) as u64,
    }
}

fn feed_gaming_traffic(sim: &mut DpiSimulator, count: usize) {
    let mut rng = StdRng::seed_from_u64(42);
    let normal = Normal::new(150.0f64, 50.0).unwrap();
    let timing_normal = Normal::new(16.0f64, 8.0).unwrap();
    let entropy_normal = Normal::new(7.2f64, 0.3).unwrap();

    for i in 0..count {
        let size = normal.sample(&mut rng).clamp(60.0, 300.0) as usize;
        let entropy = entropy_normal.sample(&mut rng).clamp(0.0, 8.0);
        let direction = if i % 3 == 0 { PacketDirection::Up } else { PacketDirection::Down };
        let packet = make_test_packet(size, direction, entropy);
        sim.process_packet(&packet, i as u64);

        let iat = timing_normal.sample(&mut rng).clamp(1.0, 100.0);
        sim.timing_extractor.observe((iat * 1000.0) as u64);
    }
}

/// The confidence in the nearest kind of traffic, in millionths.
fn confidence_in(nearest: &Nearest, threshold: u64) -> u64 {
    match nearest.distance {
        None => 0,
        Some(d) => ((-(d.low as f64) / threshold as f64).exp().clamp(0.0, 1.0) * 1e6) as u64,
    }
}

fn confidence(sim: &DpiSimulator) -> u64 {
    confidence_in(&sim.nearest(), sim.classifier.threshold)
}

fn classify(sim: &DpiSimulator) -> ClassificationResult {
    sim.classify(confidence(sim))
}

fn values(f: &FeatureVector) -> [i128; 13] {
    [
        f.size_mean as i128,
        f.size_std as i128,
        f.timing_mean as i128,
        f.timing_std as i128,
        f.entropy_mean as i128,
        f.direction_ratio as i128,
        f.periodicity as i128,
        f.size_skewness,
        f.size_kurtosis,
        f.burstiness as i128,
        f.autocorrelation,
        f.entropy_stability as i128,
        f.asymmetry as i128,
    ]
}

#[test]
fn dpi_simulator_test_simulator_creation() {
    let sim = DpiSimulator::new();
    assert_eq!(sim.packet_count(), 0);
    assert_eq!(sim.region(), DpiRegion::Generic);
}

#[test]
fn test_simulator_with_region() {
    let sim = DpiSimulator::with_region(DpiRegion::Russia);
    assert_eq!(sim.region(), DpiRegion::Russia);
    assert!(!sim.dpi_signatures.is_empty());
}

#[test]
fn test_process_packet_updates_state() {
    let mut sim = DpiSimulator::new();
    let packet = make_test_packet(150, PacketDirection::Up, 7.2);
    sim.process_packet(&packet, 0);
    assert_eq!(sim.packet_count(), 1);
    assert_eq!(sim.size_extractor.mean(), 150_000_000);
    assert_eq!(sim.direction_extractor.byte_ratio(), 1_000_000);
}

#[test]
fn test_feature_vector_has_correct_length() {
    let mut sim = DpiSimulator::new();
    feed_gaming_traffic(&mut sim, 64);
    let fv = sim.get_feature_vector();
    assert_eq!(values(&fv).len(), 13);
}

#[test]
fn test_classification_returns_valid_result() {
    let mut sim = DpiSimulator::new();
    feed_gaming_traffic(&mut sim, 128);
    let result = classify(&sim);
    assert!(result.confidence <= 1_000_000);
    assert!(!result.detected_as.is_empty());
}

#[test]
fn test_would_be_flagged_for_vpn_traffic() {
    let mut sim = DpiSimulator::with_region(DpiRegion::China);

    let vpn_normal = Normal::new(700.0f64, 350.0).unwrap();
    let vpn_timing = Normal::new(50.0f64, 30.0).unwrap();
    let mut rng = StdRng::seed_from_u64(42);

    for i in 0..128 {
        let size = vpn_normal.sample(&mut rng).clamp(100.0, 1400.0) as usize;
        let direction = if i % 2 == 0 { PacketDirection::Up } else { PacketDirection::Down };
        let packet = make_test_packet(size, direction, 7.9);
        sim.process_packet(&packet, i);
        let iat = vpn_timing.sample(&mut rng).clamp(1.0, 200.0);
        sim.timing_extractor.observe((iat * 1000.0) as u64);
    }

    let result = classify(&sim);
    let flagged = sim.would_be_flagged(confidence(&sim));
    assert_eq!(flagged, sim.is_flagged(&result));
    assert_eq!(
        flagged,
        result.confidence > 450_000 || result.risk_level >= RiskLevel::HighRisk
    );
}

#[test]
fn test_analysis_returns_valid_structure() {
    let mut sim = DpiSimulator::new();
    feed_gaming_traffic(&mut sim, 128);
    let analysis = sim.analyze();
    assert!(analysis.size_analysis.observed_mean > 0);
    assert!(analysis.timing_analysis.observed_mean > 0);
    assert!(analysis.entropy_analysis.observed_mean > 0);
    assert!(!analysis.recommendations.is_empty());
}

#[test]
fn test_reset_clears_state() {
    let mut sim = DpiSimulator::new();
    feed_gaming_traffic(&mut sim, 64);
    assert!(sim.packet_count() > 0);
    sim.reset();
    assert_eq!(sim.packet_count(), 0);
    assert_eq!(values(&sim.get_feature_vector())[0], 0);
}

#[test]
fn test_size_extractor_statistics() {
    let mut ext = SizeFeatureExtractor::new(128);
    for _ in 0..100 {
        ext.observe(150);
    }
    assert!((ext.mean() as f64 / 1e6 - 150.0).abs() < 1.0);
    assert!(ext.std_dev() < 1_000_000);
    assert_eq!(ext.mean(), 150_000_000);
    assert_eq!(ext.std_dev(), 0);
    assert_eq!(ext.kurtosis(), 3_000_000);
}

#[test]
fn size_extractor_measures() {
    let mut ext = SizeFeatureExtractor::new(4);
    for size in [1000, 2, 4, 4, 6] {
        ext.observe(size);
    }
    // The window holds 2, 4, 4, 6.
    assert_eq!(ext.mean(), 4_000_000);
    assert_eq!(ext.std_dev(), 1_414_213);
    assert_eq!(ext.coefficient_of_variation(), 353_553);
    assert_eq!(ext.skewness(), 0);
    // Two of four at one and four tenths deviations: (2 * 1.414^4) / 4.
    assert_eq!(ext.kurtosis() / 10_000, 199);
    assert_eq!(ext.percentile(50), 400);
    assert_eq!(ext.percentile(25), 350);
}

#[test]
fn test_timing_extractor_burstiness() {
    let mut ext = TimingFeatureExtractor::new(128);
    for i in 0..50 {
        let iat = if i % 5 == 0 { 100_000 } else { 10_000 };
        ext.observe(iat);
    }
    assert!(ext.burstiness_index() > 0);
}

#[test]
fn test_entropy_extractor_high_entropy() {
    let mut ext = EntropyFeatureExtractor::new(128);
    for _ in 0..50 {
        ext.observe(7_900_000);
    }
    assert!(ext.is_high_entropy());
}

#[test]
fn test_direction_extractor_asymmetry() {
    let mut ext = DirectionFeatureExtractor::new();
    for _ in 0..50 {
        ext.observe(200, PacketDirection::Down);
    }
    for _ in 0..10 {
        ext.observe(100, PacketDirection::Up);
    }
    assert!(ext.asymmetry_score() > 300_000);
    // 1000 of 11000 bytes went up.
    assert_eq!(ext.byte_ratio(), 90_909);
    assert_eq!(ext.asymmetry_score(), 818_182);
    assert_eq!(ext.packet_ratio(), 166_666);
}

#[test]
fn running_share_moves_by_a_twentieth() {
    let mut ext = DirectionFeatureExtractor::new();
    assert_eq!(ext.ema_ratio(), 500_000_000_000);
    assert_eq!(ext.byte_ratio(), 500_000);
    ext.observe(100, PacketDirection::Up);
    assert_eq!(ext.ema_ratio(), 525_000_000_000);
    ext.observe(100, PacketDirection::Down);
    assert_eq!(ext.ema_ratio(), 523_750_000_000);
}

#[test]
fn test_periodicity_extractor_detects_regular_pattern() {
    let mut ext = PeriodicityExtractor::new(128);
    for i in 0..50 {
        ext.observe((i as f64 * 16.67 * 65_536.0) as u64);
    }
    assert!(ext.periodicity_score() > 0);
    // Gaps one part of a millisecond apart: four tenths of 0.118371 and three of 0.208792.
    assert_eq!(ext.periodicity_score(), 109_986);
}

#[test]
fn an_exact_beat_has_no_score() {
    let mut ext = PeriodicityExtractor::new(8192);
    for i in 0..6000u64 {
        ext.observe(i * 1_000_000);
    }
    assert_eq!(ext.timestamps.len(), 6000);
    assert_eq!(ext.periodicity_score(), 0);
}

#[test]
fn large_sizes_and_long_gaps_count_in_full() {
    let mut sizes = SizeFeatureExtractor::new(5000);
    sizes.observe(5_000_000);
    sizes.observe(5_000_002);
    assert_eq!(sizes.mean(), 5_000_001_000_000);
    assert_eq!(sizes.std_dev(), 1_000_000);
    let mut gaps = TimingFeatureExtractor::new(5000);
    let day_us = 86_400_000_000;
    gaps.observe(day_us);
    gaps.observe(3 * day_us);
    assert_eq!(gaps.mean(), 2_000_000 * day_us as u128);
    assert_eq!(gaps.std_dev(), 1_000_000 * day_us as u128);
    assert_eq!(gaps.coefficient_of_variation(), 500_000);
    let mut sim = DpiSimulator::new();
    sim.process_packet(&make_test_packet(3_000_000, PacketDirection::Up, 7.0), 0);
    assert_eq!(sim.get_feature_vector().size_mean, 3_000_000_000_000);
    assert!(sim.nearest().distance.is_some());
}

#[test]
fn a_pattern_without_a_gap_is_measured_in_nanoseconds() {
    let sig = DpiSignature {
        name: "flood".to_string(),
        port_pattern: None,
        tls_pattern: None,
        timing_pattern: Some(TimingPattern {
            mean_iat_us: 0,
            std_iat_us: 0,
            burst_interval_us: None,
        }),
        severity: 50,
    };
    assert_eq!(sig.matches_timing(0, 0), 1_000_000);
    assert_eq!(sig.matches_timing(1, 0), 400_000);
    assert_eq!(sig.matches_timing(1000, 0), 0);
}

#[test]
fn periodicity_needs_times_that_differ() {
    let mut ext = PeriodicityExtractor::new(128);
    for _ in 0..50 {
        ext.observe(1000);
    }
    assert_eq!(ext.periodicity_score(), 0);
    assert_eq!(ext.dominant_period(), None);
}

#[test]
fn test_classifier_identifies_gaming_profile() {
    let classifier = TrafficClassifier::new(5_000_000);
    let nearest = classifier.classify(&FlowPoint {
        size: 150_000_000,
        timing: 16_000_000,
        entropy: 7_200_000,
        direction: 350_000,
        periodicity: 180_000,
    });
    assert!(nearest.name == "valorant" || nearest.name == "cs2");
    assert!(confidence_in(&nearest, classifier.threshold) > 0);
    assert_eq!(nearest.name, "valorant");
}

#[test]
fn test_classifier_identifies_vpn_profile() {
    let classifier = TrafficClassifier::new(5_000_000);
    let nearest = classifier.classify(&FlowPoint {
        size: 700_000_000,
        timing: 50_000_000,
        entropy: 7_800_000,
        direction: 480_000,
        periodicity: 100_000,
    });
    assert!(nearest.name == "openvpn" || nearest.name == "wireguard");
    assert!(confidence_in(&nearest, classifier.threshold) > 0);
    // A quarter of a deviation in size, and nothing else: 0.3 * 0.0625.
    assert_eq!(nearest.name, "openvpn");
    assert_eq!(nearest.distance, Some(Wide::of(18_750)));
}

#[test]
fn classifier_learns_profiles() {
    let mut classifier = TrafficClassifier::new(5_000_000);
    classifier.add_profile(TrafficProfile::new(
        "own", 50_000_000, 0, 5_000_000, 0, 1_000_000, 0, 0,
    ));
    let point = FlowPoint {
        size: 50_000_000,
        timing: 5_000_000,
        entropy: 1_000_000,
        direction: 0,
        periodicity: 0,
    };
    let nearest = classifier.classify(&point);
    assert_eq!(nearest.name, "own");
    assert_eq!(nearest.distance, Some(Wide::of(0)));
}

#[test]
fn test_risk_level_ordering() {
    assert!(RiskLevel::Safe < RiskLevel::LowRisk);
    assert!(RiskLevel::LowRisk < RiskLevel::MediumRisk);
    assert!(RiskLevel::MediumRisk < RiskLevel::HighRisk);
    assert!(RiskLevel::HighRisk < RiskLevel::Critical);
}

#[test]
fn test_dpi_signatures_match_timing() {
    let sig = DpiSignature {
        name: "test".to_string(),
        port_pattern: Some(vec![443]),
        tls_pattern: None,
        timing_pattern: Some(TimingPattern {
            mean_iat_us: 50_000,
            std_iat_us: 30_000,
            burst_interval_us: Some(1_000_000),
        }),
        severity: 90,
    };

    let close_match = sig.matches_timing(52_000_000, 28_000_000);
    let far_match = sig.matches_timing(200_000_000, 100_000_000);
    assert!(close_match > far_match);
    assert_eq!(sig.matches_timing(50_000_000, 30_000_000), 1_000_000);
    // Off by a twenty-fifth in the mean: 1 - 0.6 * 0.04.
    assert_eq!(sig.matches_timing(52_000_000, 30_000_000), 976_000);
    assert_eq!(far_match, 0);
}

#[test]
fn test_dpi_signatures_match_port() {
    let sig = DpiSignature {
        name: "test".to_string(),
        port_pattern: Some(vec![1194, 443]),
        tls_pattern: None,
        timing_pattern: None,
        severity: 80,
    };
    assert!(sig.matches_port(1194));
    assert!(sig.matches_port(443));
    assert!(!sig.matches_port(8080));
    assert_eq!(sig.matches_timing(50_000_000, 30_000_000), 0);
}

#[test]
fn test_region_blocking_thresholds() {
    assert!(DpiRegion::China.blocking_threshold() < DpiRegion::Russia.blocking_threshold());
    assert!(DpiRegion::Iran.blocking_threshold() < DpiRegion::Generic.blocking_threshold());
    assert_eq!(DpiRegion::China.blocking_threshold(), 45);
    assert_eq!(DpiRegion::Generic.blocking_threshold(), 60);
}

#[test]
fn test_region_detection_weights_sum_to_one() {
    for region in [DpiRegion::Russia, DpiRegion::China, DpiRegion::Iran, DpiRegion::Generic] {
        let w = region.detection_weights();
        let total = w.size_weight
            + w.timing_weight
            + w.entropy_weight
            + w.direction_weight
            + w.periodicity_weight
            + w.signature_weight;
        assert_eq!(total, 100, "Weights for {:?} sum to {}", region, total);
    }
}

fn gaming_profile() -> GamingProfile {
    GamingProfile {
        name: "test".to_string(),
        packet_size_min: 60,
        packet_size_max: 300,
        heartbeat_interval_ms: 30000,
        jitter_ms: 50,
        frequency_hz: 60,
        size_distribution: vec![GaussianComponentDef {
            mean_micro: 150_000_000,
            std_dev_micro: 40_000_000,
            weight_micro: 1_000_000,
        }],
        timing_distribution: vec![TimingBinDef { time_us: 16_000, probability_micro: 1_000_000 }],
        burst_patterns: vec![BurstPatternDef {
            name: "shooting".to_string(),
            packet_count_range: (5, 10),
            inter_packet_time_range_us: (5_000, 15_000),
            size_range: (60, 150),
            probability_micro: 400_000,
        }],
        client_server_size_ratio_micro: (600_000, 1_000_000),
        entropy_profile: None,
    }
}

#[test]
fn test_simulator_with_target_model() {
    let model = StatisticalGameTrafficModel::from_profile(&gaming_profile()).unwrap();
    let sizes: Vec<u64> = (100..200).map(|x| 1_000_000 * x).collect();
    let gaps = draw_gap_samples(&model);
    let target = TrafficTarget::from_model(&model, &sizes, &sizes, &gaps);
    let mut sim = DpiSimulator::new().with_target_model(target.target_stats());
    feed_gaming_traffic(&mut sim, 64);
    let goal = sim.target_stats();
    assert_eq!(goal.size_mean, 150_000_000);
    assert_eq!(goal.size_std, 40_000_000);
    assert_eq!(goal.timing_mean, 16_000_000);
    assert_eq!(goal.direction, 600_000);
    assert_eq!(goal.entropy, 7_000_000);
}

#[test]
fn test_traffic_type_display() {
    assert_eq!(TrafficType::Vpn.to_text(), "VPN");
    assert_eq!(TrafficType::Tor.to_text(), "Tor");
    assert_eq!(TrafficType::Gaming.to_text(), "Gaming");
}

#[test]
fn test_risk_level_display() {
    assert_eq!(RiskLevel::Safe.to_text(), "Safe");
    assert_eq!(RiskLevel::Critical.to_text(), "Critical");
}

#[test]
fn test_entropy_stability() {
    let mut ext = EntropyFeatureExtractor::new(128);
    for _ in 0..50 {
        ext.observe(7_000_000);
    }
    assert!(ext.entropy_stability() < 100_000);
    assert_eq!(ext.entropy_stability(), 0);
    let none = EntropyFeatureExtractor::new(128);
    assert_eq!(none.entropy_stability(), 1_000_000);
}

#[test]
fn test_size_percentile_ordering() {
    let mut ext = SizeFeatureExtractor::new(128);
    let mut rng = StdRng::seed_from_u64(42);
    let normal = Normal::new(200.0f64, 80.0).unwrap();
    for _ in 0..100 {
        ext.observe(normal.sample(&mut rng).clamp(40.0, 1500.0) as usize);
    }
    let p25 = ext.percentile(25);
    let p50 = ext.percentile(50);
    let p75 = ext.percentile(75);
    assert!(p25 <= p50);
    assert!(p50 <= p75);
}

#[test]
fn test_timing_percentile_ordering() {
    let mut ext = TimingFeatureExtractor::new(128);
    let mut rng = StdRng::seed_from_u64(42);
    let normal = Normal::new(30.0f64, 15.0).unwrap();
    for _ in 0..100 {
        ext.observe((normal.sample(&mut rng).clamp(1.0, 200.0) * 1000.0) as u64);
    }
    let p50 = ext.percentile(50);
    let p95 = ext.percentile(95);
    assert!(p50 <= p95);
}

#[test]
fn test_direction_total_counts() {
    let mut ext = DirectionFeatureExtractor::new();
    for _ in 0..30 {
        ext.observe(100, PacketDirection::Up);
    }
    for _ in 0..20 {
        ext.observe(200, PacketDirection::Down);
    }
    assert_eq!(ext.total_packets(), 50);
    assert_eq!(ext.total_bytes(), 7000);
}

#[test]
fn test_periodicity_dominant_period() {
    let mut ext = PeriodicityExtractor::new(128);
    for i in 0..30 {
        ext.observe(i * 25 * 65_536);
    }
    let period = ext.dominant_period();
    assert!(period.is_some());
    let p = period.unwrap();
    assert!((p as f64 / 1e9 - 25.0).abs() < 1.0);
    assert_eq!(p, 25_000_000_000);
}

#[test]
fn test_empty_sim_classification() {
    let sim = DpiSimulator::new();
    let result = classify(&sim);
    assert_eq!(result.detected_as, "unknown");
    assert_eq!(result.confidence, 0);
    assert_eq!(result.classification, TrafficType::Unknown);
}

#[test]
fn test_empty_sim_analysis() {
    let sim = DpiSimulator::new();
    let analysis = sim.analyze();
    assert_eq!(analysis.size_analysis.observed_mean, 0);
    assert_eq!(analysis.timing_analysis.observed_mean, 0);
}

#[test]
fn test_set_region_updates_signatures() {
    let mut sim = DpiSimulator::new();
    let initial_count = sim.dpi_signatures.len();
    sim.set_region(DpiRegion::China);
    assert_ne!(sim.dpi_signatures.len(), initial_count);
    assert_eq!(sim.region(), DpiRegion::China);
}

#[test]
fn test_feature_vector_all_finite() {
    let mut sim = DpiSimulator::new();
    feed_gaming_traffic(&mut sim, 64);
    let fv = sim.get_feature_vector();
    for (i, &val) in values(&fv).iter().enumerate() {
        assert!((val as f64).is_finite(), "Feature {} is not finite: {}", i, val);
    }
}

#[test]
fn test_recommendations_not_empty_after_traffic() {
    let mut sim = DpiSimulator::new();
    feed_gaming_traffic(&mut sim, 128);
    let analysis = sim.analyze();
    assert!(!analysis.recommendations.is_empty());
}

#[test]
fn test_detectability_to_risk_mapping() {
    assert_eq!(DpiSimulator::detectability_to_risk(0), RiskLevel::Safe);
    assert_eq!(DpiSimulator::detectability_to_risk(100_000), RiskLevel::Safe);
    assert_eq!(DpiSimulator::detectability_to_risk(300_000), RiskLevel::LowRisk);
    assert_eq!(DpiSimulator::detectability_to_risk(500_000), RiskLevel::MediumRisk);
    assert_eq!(DpiSimulator::detectability_to_risk(700_000), RiskLevel::HighRisk);
    assert_eq!(DpiSimulator::detectability_to_risk(900_000), RiskLevel::Critical);
}

#[test]
fn verdicts_follow_the_region() {
    let sim = DpiSimulator::with_region(DpiRegion::China);
    assert_eq!(sim.compute_risk_level(700_000, TrafficType::Vpn), RiskLevel::Critical);
    assert_eq!(sim.compute_risk_level(600_000, TrafficType::Tor), RiskLevel::HighRisk);
    assert_eq!(sim.compute_risk_level(900_000, TrafficType::Gaming), RiskLevel::MediumRisk);
    assert_eq!(sim.compute_risk_level(400_000, TrafficType::Vpn), RiskLevel::LowRisk);
    assert_eq!(sim.compute_risk_level(300_000, TrafficType::Vpn), RiskLevel::Safe);
    assert_eq!(combine_confidence(1_000_000, 0), 650_000);
    assert_eq!(DpiSimulator::map_to_traffic_type("wireguard"), TrafficType::Vpn);
    assert_eq!(DpiSimulator::map_to_traffic_type("trojan"), TrafficType::Proxy);
    assert_eq!(DpiSimulator::map_to_traffic_type("nothing"), TrafficType::Unknown);
}

fn on_target() -> FeatureVector {
    FeatureVector {
        size_mean: 200_000_000,
        size_std: 150_000_000,
        timing_mean: 30_000_000,
        timing_std: 20_000_000,
        entropy_mean: 7_000_000,
        direction_ratio: 400_000,
        periodicity: 150_000,
        size_skewness: 0,
        size_kurtosis: 3_000_000,
        burstiness: 0,
        autocorrelation: 0,
        entropy_stability: 0,
        asymmetry: 200_000,
    }
}

#[test]
fn a_flow_on_target_is_undetectable() {
    let d = detectability(&on_target(), &plain_target());
    assert_eq!((d.size, d.timing, d.entropy, d.direction, d.periodicity), (0, 0, 0, 0, 0));
    assert_eq!(overall_detectability(&d, DpiRegion::Generic, 0), 0);
    assert_eq!(z_score(350_000_000, 200_000_000, 150_000_000), 1_000_000);
    assert_eq!(z_score(50_000_000, 200_000_000, 150_000_000), -1_000_000);
    assert_eq!(z_score(1, 2, 0), 0);
}

#[test]
fn advice_names_what_stands_out() {
    let t = plain_target();
    let mut f = on_target();
    f.entropy_mean = 2_000_000;
    let d = detectability(&f, &t);
    let o = Observations {
        burstiness: 0,
        entropy: 2_000_000,
        direction: 400_000,
        period: None,
        signature: 350_000,
    };
    let recs = generate_recommendations(&d, &t, &o);
    assert_eq!(
        recs,
        vec![
            "Entropy too low (2.00 vs target 7.00). Payload may contain recognizable patterns".to_string(),
            "Traffic matches known DPI signature (score 0.35). Consider port randomization or TLS fingerprint obfuscation".to_string(),
        ]
    );
    let calm = Observations { signature: 0, entropy: 7_000_000, ..o };
    let none = detectability(&on_target(), &t);
    assert_eq!(
        generate_recommendations(&none, &t, &calm),
        vec!["Traffic profile within acceptable bounds for target model".to_string()]
    );
}
