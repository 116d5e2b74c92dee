use phantom::masking::adaptive_learner::AdaptiveTrafficLearner;
use phantom::masking::adversarial::{PacketDirection, PacketRecord};
use phantom::masking::burst_learning::{detect_burst_patterns, BurstObservation};
use phantom::masking::contexts::UserProfile;
use phantom::utils::wide::Wide;
use phantom::masking::empirical::{
    Edges, EmpiricalDistribution, Moments, OnlineStatisticsUpdater,
};
use phantom::masking::similarity::{AnomalyDetector, ProfileSimilarityChecker};
use rand::rngs::StdRng;
use rand::{Rng, SeedableRng};
use serde_json::Value;

fn make_packet(size: usize, direction: PacketDirection, entropy_micro: u64) -> PacketRecord {
    PacketRecord { size, direction, timestamp_us: 0, payload_entropy_micro: entropy_micro }
}

#[test]
fn test_learner_creation() {
    let learner = AdaptiveTrafficLearner::new(50_000, 50);
    assert_eq!(learner.min_samples(), 50);
    assert_eq!(learner.learning_rate(), 50_000);
    assert!(learner.active_profile().is_none());
}

#[test]
fn learner_limits_its_settings() {
    let slow = AdaptiveTrafficLearner::new(0, 3);
    assert_eq!(slow.min_samples(), 10);
    assert_eq!(slow.learning_rate(), 1_000);
    let mut fast = AdaptiveTrafficLearner::new(900_000, 10);
    assert_eq!(fast.learning_rate(), 500_000);
    fast.set_learning_rate(20_000);
    assert_eq!(fast.learning_rate(), 20_000);
}

#[test]
fn test_observe_packets_builds_profile() {
    let mut learner = AdaptiveTrafficLearner::new(50_000, 10);

    for i in 0..50usize {
        let size = 100 + (i % 50);
        let dir = if i % 3 == 0 { PacketDirection::Up } else { PacketDirection::Down };
        learner.observe_packet(&make_packet(size, dir, 7_200_000), "test_context", 1000 * i as u64);
    }

    learner.update_profile("test_context");
    let profile = learner.get_profile("test_context");
    assert!(profile.is_some());
    let profile = profile.unwrap();
    assert!(profile.sample_count >= 10);
    assert!(profile.confidence_micro > 0);
    assert!(profile.size_distribution.moments.mean_micro() > 0);

    // Exactly: fifty sizes from 100 to 149, gaps of one millisecond.
    assert_eq!(profile.sample_count, 50);
    assert_eq!(profile.size_distribution.moments.mean_micro(), 124_500_000);
    assert_eq!(profile.timing_distribution.moments.mean_micro(), 1_000_000_000);
    assert_eq!(profile.payload_entropy_micro, 7_200_000);
    assert_eq!(profile.up_down_ratio_micro, 17_000_000 / 33);
    assert_eq!(learner.active_profile().map(|s| s.as_str()), Some("test_context"));
}

#[test]
fn test_generate_masked_packet() {
    let mut learner = AdaptiveTrafficLearner::new(50_000, 10);

    for i in 0..30usize {
        learner.observe_packet(
            &make_packet(128 + (i % 20), PacketDirection::Up, 7_000_000),
            "youtube",
            1000 * i as u64,
        );
    }
    learner.update_profile("youtube");

    let masked = learner.generate_masked_packet("youtube");
    assert!(!masked.data.is_empty());
    assert_eq!(masked.context, "youtube");
    assert!(masked.data.len() >= 128 && masked.data.len() <= 148);
}

fn distribution_value(d: &EmpiricalDistribution) -> Value {
    let mut m = serde_json::Map::new();
    m.insert("bins".to_string(), Value::from(d.bins.clone()));
    let (kind, low, high) = match d.edges {
        Edges::Unset => (0u64, 0, 0),
        Edges::First(x) => (1, x, x),
        Edges::Even(a, b) => (2, a as u64, b as u64),
    };
    m.insert("unit".to_string(), Value::from(d.unit));
    m.insert("edges".to_string(), Value::from(vec![kind, low, high]));
    m.insert("count".to_string(), Value::from(d.moments.count));
    m.insert("total".to_string(), Value::from(d.moments.total as u64));
    m.insert("squares".to_string(), Value::from(d.moments.square_total.low as u64));
    Value::Object(m)
}

fn distribution_from(v: &Value) -> EmpiricalDistribution {
    let numbers = |key: &str| -> Vec<u64> {
        v[key].as_array().unwrap().iter().map(|x| x.as_u64().unwrap()).collect()
    };
    let edges = match numbers("edges").as_slice() {
        [1, x, _] => Edges::First(*x),
        [2, a, b] => Edges::Even(*a as u128, *b as u128),
        _ => Edges::Unset,
    };
    let moments = Moments {
        count: v["count"].as_u64().unwrap() as u32,
        total: v["total"].as_u64().unwrap() as u128,
        square_total: Wide::of(v["squares"].as_u64().unwrap() as u128),
    };
    let unit = v["unit"].as_u64().unwrap();
    EmpiricalDistribution::from_parts(numbers("bins"), edges, moments, unit).unwrap()
}

#[test]
fn test_export_import_roundtrip() {
    let mut learner = AdaptiveTrafficLearner::new(50_000, 10);

    for i in 0..30usize {
        learner.observe_packet(
            &make_packet(200 + (i % 30), PacketDirection::Down, 6_800_000),
            "telegram",
            1000 * i as u64,
        );
    }
    learner.update_profile("telegram");

    let orig = learner.get_profile("telegram").unwrap();
    let mut m = serde_json::Map::new();
    m.insert("name".to_string(), Value::from(orig.name.clone()));
    m.insert("sizes".to_string(), distribution_value(&orig.size_distribution));
    m.insert("timings".to_string(), distribution_value(&orig.timing_distribution));
    m.insert("samples".to_string(), Value::from(orig.sample_count));
    m.insert("confidence".to_string(), Value::from(orig.confidence_micro));
    let json = serde_json::to_string_pretty(&Value::Object(m)).unwrap();
    assert!(!json.is_empty());

    let v: Value = serde_json::from_str(&json).unwrap();
    let profile = UserProfile {
        name: v["name"].as_str().unwrap().to_string(),
        size_distribution: distribution_from(&v["sizes"]),
        timing_distribution: distribution_from(&v["timings"]),
        burst_patterns: Vec::new(),
        session_duration_dist: EmpiricalDistribution::new(64),
        idle_period_dist: EmpiricalDistribution::new(64),
        up_down_ratio_micro: orig.up_down_ratio_micro,
        payload_entropy_micro: orig.payload_entropy_micro,
        sample_count: v["samples"].as_u64().unwrap() as usize,
        confidence_micro: v["confidence"].as_u64().unwrap(),
    };
    let mut learner2 = AdaptiveTrafficLearner::new(50_000, 10);
    learner2.import_profile("telegram", profile);

    assert!(learner2.get_profile("telegram").is_some());
    let imported = learner2.get_profile("telegram").unwrap();
    assert_eq!(orig.name, imported.name);
    assert_eq!(orig.sample_count, imported.sample_count);
    assert_eq!(orig.size_distribution.bins, imported.size_distribution.bins);
    assert_eq!(orig.size_distribution.moments, imported.size_distribution.moments);
}

#[test]
fn test_learning_stats() {
    let mut learner = AdaptiveTrafficLearner::new(50_000, 10);

    for i in 0..20u64 {
        learner.observe_packet(
            &make_packet(150, PacketDirection::Up, 7_500_000),
            "github",
            1000 * i,
        );
    }
    learner.update_profile("github");

    let stats = learner.get_learning_stats();
    assert_eq!(stats.total_observations, 20);
    assert_eq!(stats.profiles_learned, 1);
    assert!(!stats.profile_details.is_empty());
    assert_eq!(stats.profile_details[0].name, "github");
    assert_eq!(stats.profile_details[0].size_mean_micro, 150_000_000);
    assert_eq!(stats.profile_details[0].size_std_milli, 0);
    assert_eq!(stats.anomaly_rate_micro, 0);
}

#[test]
fn test_online_statistics_welford() {
    let mut updater = OnlineStatisticsUpdater::new(50_000);
    let values = vec![10, 20, 30, 40, 50];
    for v in &values {
        updater.update(*v);
    }

    assert!((updater.mean() as f64 / 1e6 - 30.0).abs() < 0.001);
    assert!(updater.variance().low > 0);
    assert_eq!(updater.count(), 5);

    assert_eq!(updater.mean(), 30_000_000);
    assert_eq!(updater.variance(), Wide::of(250_000_000));
    assert_eq!(updater.std_dev(), 15_811);
}

#[test]
fn forgetful_statistics_follow_the_rate() {
    let mut updater = OnlineStatisticsUpdater::new(500_000);
    updater.update(100);
    assert_eq!(updater.ema_mean(), 100_000_000);
    assert_eq!(updater.ema_std_dev(), 0);
    updater.update(200);
    // Half way, and half of (0 + half of 100 squared).
    assert_eq!(updater.ema_mean(), 150_000_000);
    assert_eq!(updater.ema_std_dev(), 50_000_000);
}

#[test]
fn test_empirical_distribution_sampling() {
    let mut dist = EmpiricalDistribution::new(32);
    let mut rng = StdRng::seed_from_u64(42);

    for _ in 0..1000 {
        dist.add_sample(100 + rng.gen_range(0..50));
    }

    assert!(dist.moments.mean_micro() > 100_000_000);
    assert!(dist.moments.mean_micro() < 150_000_000);
    assert!(!dist.is_empty());

    let sample = dist.sample();
    assert!(sample >= 100_000_000);
    assert!(sample <= 150_000_000);
}

#[test]
fn distribution_counts_all_but_the_samples_that_widen_it() {
    let mut dist = EmpiricalDistribution::new(8);
    assert!(dist.is_empty());
    assert_eq!(dist.sample(), 0);
    assert_eq!(dist.cdf(5), 0);
    dist.add_sample(10);
    assert_eq!(dist.edges, Edges::First(10));
    dist.add_sample(20);
    assert_eq!(dist.edges, Edges::Even(10, 20));
    dist.add_sample(10);
    dist.add_sample(15);
    dist.add_sample(20);
    // Sevenths of the range: 10 falls in the first bin, 15 in the fourth, 20 in the last.
    assert_eq!(dist.bins, vec![1, 0, 0, 1, 0, 0, 0, 1]);
    assert_eq!(dist.cdf(10), 0);
    assert_eq!(dist.cdf(20), 1_000_000);
    // Up to 15 the first bin counts whole and the fourth half.
    assert_eq!(dist.cdf(15), 500_000);
}

#[test]
fn distribution_from_unsound_parts_is_refused() {
    let none = Moments::new();
    assert!(EmpiricalDistribution::from_parts(vec![0; 8], Edges::Unset, none, 1).is_some());
    assert!(EmpiricalDistribution::from_parts(vec![0; 7], Edges::Unset, none, 1).is_none());
    assert!(EmpiricalDistribution::from_parts(vec![1; 8], Edges::Unset, none, 1).is_none());
    assert!(EmpiricalDistribution::from_parts(vec![0; 8], Edges::First(4), none, 1).is_none());
    let one = Moments { count: 1, total: 4, square_total: Wide::of(16) };
    assert!(EmpiricalDistribution::from_parts(vec![0; 8], Edges::First(4), one, 1).is_some());
    assert!(EmpiricalDistribution::from_parts(vec![0; 8], Edges::Even(4, 4), one, 1).is_none());
    let odd = Moments { count: 1, total: 5, square_total: Wide::of(16) };
    assert!(EmpiricalDistribution::from_parts(vec![0; 8], Edges::First(4), odd, 1).is_none());
}

#[test]
fn the_first_range_is_one_unit_wide() {
    let mut gaps = EmpiricalDistribution::with_unit(64, 1000);
    gaps.add_sample(20_000);
    assert_eq!(gaps.edges, Edges::First(20_000));
    // Within a millisecond of the first: counted where it falls.
    gaps.add_sample(20_500);
    assert_eq!(gaps.edges, Edges::First(20_000));
    assert_eq!(gaps.bins[31], 1);
    gaps.add_sample(21_001);
    assert_eq!(gaps.edges, Edges::Even(20_000, 21_001));
    let mut sizes = EmpiricalDistribution::new(64);
    sizes.add_sample(200);
    sizes.add_sample(202);
    assert_eq!(sizes.edges, Edges::Even(200, 202));
    let none = Moments::new();
    assert!(EmpiricalDistribution::from_parts(vec![0; 8], Edges::Unset, none, 0).is_none());
}

#[test]
fn long_gaps_are_recorded_whole() {
    let mut learner = AdaptiveTrafficLearner::new(50_000, 10);
    let day_us = 86_400_000_000u64;
    for i in 0..10u64 {
        learner.observe_packet(
            &make_packet(5_000_000_000, PacketDirection::Up, 7_500_000),
            "backup",
            day_us * i,
        );
    }
    learner.update_profile("backup");
    let profile = learner.get_profile("backup").unwrap();
    assert_eq!(
        profile.timing_distribution.moments.mean_micro(),
        1_000_000 * day_us as u128
    );
    assert_eq!(profile.size_distribution.moments.mean_micro(), 5_000_000_000_000_000);
    assert_eq!(profile.timing_distribution.unit, 1000);
    assert_eq!(profile.size_distribution.unit, 1);
    let seen = learner.observed_context("backup").unwrap();
    assert_eq!(seen.timings, vec![day_us; 9]);
    assert!(learner.observed_context("nothing").is_none());
}

#[test]
fn large_samples_keep_their_spread() {
    let mut m = Moments::new();
    m.update(u64::MAX);
    m.update(u64::MAX - 2);
    // Two apart: a variance of two, and a spread of one each way.
    assert_eq!(m.variance_micro(), Wide::of(2_000_000));
    assert_eq!(m.std_dev_milli(), 1414);
    assert_eq!(m.spread_milli(), 1414);
    assert_eq!(m.mean_micro(), 1_000_000 * (u64::MAX as u128 - 1));
}

#[test]
fn draws_stay_within_the_range() {
    let mut dist = EmpiricalDistribution::new(16);
    for x in [40, 60, 45, 50, 55, 41, 59] {
        dist.add_sample(x);
    }
    for a in 0..20u64 {
        for b in 0..20u64 {
            let x = dist.sample_for_rolls(a << 48, b << 48);
            assert!((40_000_000..=60_000_000).contains(&x));
        }
    }
}

#[test]
fn test_similarity_checker_ks_test() {
    let checker = ProfileSimilarityChecker::new();
    let a = vec![1, 2, 3, 4, 5];
    let b = vec![1, 2, 3, 4, 5];
    let ks = checker.kolmogorov_smirnov(&a, &b);
    assert!(ks < 100_000);
    assert_eq!(ks, 0);

    let c = vec![10, 20, 30, 40, 50];
    let ks_diff = checker.kolmogorov_smirnov(&a, &c);
    assert!(ks_diff > ks);
    assert_eq!(ks_diff, 1_000_000);
    assert_eq!(checker.kolmogorov_smirnov(&a, &[]), 1_000_000);
}

#[test]
fn distances_between_lists() {
    let checker = ProfileSimilarityChecker::default();
    assert_eq!(checker.wasserstein_distance(&[3, 1], &[2, 5]), Some(1_500_000));
    assert_eq!(checker.wasserstein_distance(&[1], &[1, 4]), Some(1_500_000));
    assert_eq!(checker.wasserstein_distance(&[], &[1]), None);
    assert_eq!(checker.wasserstein_distance(&[7, 7], &[7, 7]), Some(0));
    // (12 - 10)^2 / 10 + (8 - 10)^2 / 10.
    assert_eq!(checker.chi_squared_test(&[12, 8], &[10_000_000, 10_000_000]), Some(800_000));
    assert_eq!(checker.chi_squared_test(&[12, 8], &[0, 10_000_000]), Some(400_000));
    assert_eq!(checker.chi_squared_test(&[12], &[10_000_000, 10_000_000]), None);
    assert_eq!(checker.chi_squared_test(&[], &[]), None);
}

#[test]
fn same_moments_are_wholly_alike() {
    let checker = ProfileSimilarityChecker::new();
    let mut a = Moments::new();
    let mut b = Moments::new();
    for x in [100, 110, 120] {
        a.update(x);
        b.update(2 * x);
    }
    assert_eq!(checker.distribution_similarity(&a, &a), 1_000_000);
    let s = checker.distribution_similarity(&a, &b);
    assert_eq!(s, 950_000);
}

#[test]
fn test_anomaly_detector() {
    let mut detector = AnomalyDetector::new(3_000, 64);

    for _ in 0..20 {
        detector.add_score(100_000);
    }
    assert!(!detector.is_anomalous());

    detector.add_score(5_000_000);
    assert!(detector.is_anomalous());
    detector.add_score(6_000_000);
    detector.add_score(7_000_000);
    assert_eq!(detector.threshold(), 3_000);
}

#[test]
fn anomaly_needs_enough_scores_and_a_spread() {
    let mut detector = AnomalyDetector::new(500, 4);
    assert_eq!(detector.threshold(), 1_000);
    assert_eq!(detector.anomaly_score(), 0);
    for score in [0, 0, 0, 0, 0, 0, 1_000_000] {
        detector.add_score(score);
    }
    // Seven scores are too few.
    assert!(!detector.is_anomalous());
    // (1 - 1/7) by the root of 1/7.
    assert_eq!(detector.anomaly_score(), 2_267);
    detector.add_score(1_000_000);
    assert!(detector.is_anomalous());
    detector.set_threshold(9_000);
    assert!(!detector.is_anomalous());
}

#[test]
fn test_multiple_contexts() {
    let mut learner = AdaptiveTrafficLearner::new(50_000, 10);

    for i in 0..20usize {
        learner.observe_packet(
            &make_packet(80 + (i % 20), PacketDirection::Up, 7_000_000),
            "youtube",
            1000 * i as u64,
        );
        learner.observe_packet(
            &make_packet(200 + (i % 50), PacketDirection::Down, 6_500_000),
            "telegram",
            1000 * i as u64,
        );
    }

    learner.update_profile("youtube");
    learner.update_profile("telegram");

    assert!(learner.get_profile("youtube").is_some());
    assert!(learner.get_profile("telegram").is_some());

    let yt = learner.get_profile("youtube").unwrap();
    let tg = learner.get_profile("telegram").unwrap();

    assert!(
        yt.size_distribution.moments.mean_micro() < tg.size_distribution.moments.mean_micro()
    );
    let mut names = learner.learned_contexts();
    names.sort();
    assert_eq!(names, vec!["telegram".to_string(), "youtube".to_string()]);
    let best = learner.get_best_profile().unwrap();
    assert!(best.confidence_micro >= yt.confidence_micro);
    assert!(best.confidence_micro >= tg.confidence_micro);
}

#[test]
fn test_reset_context() {
    let mut learner = AdaptiveTrafficLearner::new(50_000, 10);

    for i in 0..20u64 {
        learner.observe_packet(&make_packet(100, PacketDirection::Up, 7_000_000), "temp", 1000 * i);
    }
    learner.update_profile("temp");
    assert!(learner.get_profile("temp").is_some());

    learner.reset_context("temp");
    assert!(learner.get_profile("temp").is_none());
}

#[test]
fn test_generate_without_profile_falls_back() {
    let learner = AdaptiveTrafficLearner::new(50_000, 10);

    let masked = learner.generate_masked_packet("unknown");
    assert!(!masked.data.is_empty());
    assert_eq!(masked.context, "unknown");
    assert_eq!(masked.data.len(), 128);
    assert_eq!(masked.delay_ms, 50);
}

#[test]
fn unlearned_traffic_is_drawn_from_what_was_seen() {
    let mut learner = AdaptiveTrafficLearner::new(50_000, 10);
    learner.observe_packet(&make_packet(300, PacketDirection::Up, 7_000_000), "seen", 0);
    let masked = learner.generate_masked_packet("other");
    assert_eq!((masked.data.len(), masked.delay_ms), (300, 50));
    learner.observe_packet(&make_packet(300, PacketDirection::Up, 7_000_000), "seen", 20_000);
    let masked = learner.generate_masked_packet("other");
    assert_eq!((masked.data.len(), masked.delay_ms), (300, 20));
}

#[test]
fn test_check_similarity_returns_value() {
    let mut learner = AdaptiveTrafficLearner::new(50_000, 10);

    for i in 0..30usize {
        learner.observe_packet(
            &make_packet(150 + (i % 10), PacketDirection::Up, 7_000_000),
            "check_test",
            1000 * i as u64,
        );
    }
    learner.update_profile("check_test");

    let similarity = learner.check_similarity("check_test");
    assert!(similarity <= 1_000_000);
    assert_eq!(similarity, 1_000_000);
    assert_eq!(learner.check_similarity("unknown"), 0);
}

#[test]
fn steady_traffic_is_no_anomaly() {
    let mut learner = AdaptiveTrafficLearner::new(50_000, 10);
    assert!(!learner.detect_anomaly());
    for i in 0..40u64 {
        learner.observe_packet(&make_packet(150, PacketDirection::Up, 7_000_000), "c", 1000 * i);
        assert!(!learner.detect_anomaly());
    }
}

#[test]
fn test_session_recording() {
    let mut learner = AdaptiveTrafficLearner::new(50_000, 10);

    for i in 0..10u64 {
        learner.observe_packet(
            &make_packet(100, PacketDirection::Up, 7_000_000),
            "session_test",
            1000 * i,
        );
    }

    learner.record_session_end("session_test", 10_000);
    learner.update_profile("session_test");

    let profile = learner.get_profile("session_test");
    assert!(profile.is_some());
    let profile = profile.unwrap();
    assert_eq!(profile.session_duration_dist.moments.mean_micro(), 10_000_000);
    // One millisecond after the last packet is no pause.
    assert!(profile.idle_period_dist.is_empty());

    learner.observe_packet(&make_packet(100, PacketDirection::Up, 7_000_000), "session_test", 20_000);
    learner.record_session_end("session_test", 120_000);
    learner.update_profile("session_test");
    let profile = learner.get_profile("session_test").unwrap();
    assert_eq!(profile.idle_period_dist.moments.mean_micro(), 100_000_000);
}

#[test]
fn bursts_of_a_kind_make_a_pattern() {
    let mut seen = Vec::new();
    for _ in 0..6 {
        let mut b = BurstObservation::new(100);
        b.push(5_000, 200);
        b.push(7_000, 300);
        seen.push(b);
    }
    let mut long = BurstObservation::new(50);
    for _ in 0..59 {
        long.push(1_000, 50);
    }
    seen.push(long);
    let patterns = detect_burst_patterns(&seen);
    assert_eq!(patterns.len(), 1);
    assert_eq!(patterns[0].name, "micro_burst");
    assert_eq!(patterns[0].avg_packet_count_micro, 3_000_000);
    assert_eq!(patterns[0].avg_inter_packet_time_micro, 6_000_000_000);
    assert_eq!(patterns[0].avg_packet_size_micro, 200_000_000);
    assert_eq!(patterns[0].frequency_micro, 857_142);
    assert_eq!(patterns[0].confidence_micro, 1_000_000);

    seen.truncate(4);
    assert!(detect_burst_patterns(&seen).is_empty());
}
