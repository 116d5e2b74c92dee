use phantom::masking::profiles::{
    BurstPatternDef, EntropyProfileDef, GamingProfile, GaussianComponentDef, TimingBinDef,
};
use phantom::masking::statistical_model::{
    chi_squared_critical_value, chi_squared_test, compute_cdf, histogram, sample_from_cdf,
    GaussianComponent, StatisticalGameTrafficModel, ROLL_RANGE,
};
use phantom::masking::traffic_target::{
    component_by_weight, compute_timing_distribution_stats, draw_gap_samples, drawable, measurable,
    TrafficTarget,
};
use rand::rngs::StdRng;
use rand::{Rng, SeedableRng};
use rand_distr::{Distribution, Normal};
use std::sync::{Arc, RwLock};

fn component(mean: i64, std_dev: i64, weight_micro: u64) -> GaussianComponentDef {
    GaussianComponentDef {
        mean_micro: 1_000_000 * mean,
        std_dev_micro: 1_000_000 * std_dev,
        weight_micro,
    }
}

fn test_profile() -> GamingProfile {
    GamingProfile {
        name: "test".to_string(),
        packet_size_min: 60,
        packet_size_max: 400,
        heartbeat_interval_ms: 30000,
        jitter_ms: 50,
        frequency_hz: 60,
        size_distribution: vec![
            component(90, 15, 500_000),
            component(200, 50, 300_000),
            component(400, 80, 200_000),
        ],
        timing_distribution: vec![
            TimingBinDef { time_us: 15_630, probability_micro: 650_000 },
            TimingBinDef { time_us: 31_250, probability_micro: 200_000 },
            TimingBinDef { time_us: 50_000, probability_micro: 150_000 },
        ],
        burst_patterns: vec![BurstPatternDef {
            name: "test_burst".to_string(),
            packet_count_range: (3, 7),
            inter_packet_time_range_us: (5_000, 15_000),
            size_range: (80, 200),
            probability_micro: 100_000,
        }],
        client_server_size_ratio_micro: (500_000, 1_000_000),
        entropy_profile: Some(EntropyProfileDef {
            mean_entropy_micro: 7_200_000,
            entropy_std_micro: 300_000,
        }),
    }
}

fn test_model() -> StatisticalGameTrafficModel {
    StatisticalGameTrafficModel::from_profile(&test_profile()).unwrap()
}

fn draw_size(model: &StatisticalGameTrafficModel, rng: &mut StdRng) -> usize {
    let c = model.size_distribution[model.draw_size_component()];
    let normal = Normal::new(c.mean_micro as f64, c.std_dev_micro as f64).unwrap();
    StatisticalGameTrafficModel::sample_packet_size(normal.sample(rng) as i64)
}

fn test_target() -> TrafficTarget {
    let model = test_model();
    let mut rng = StdRng::seed_from_u64(42);
    let sizes: Vec<u64> =
        (0..8192).map(|_| 1_000_000 * draw_size(&model, &mut rng) as u64).collect();
    let gaps = draw_gap_samples(&model);
    TrafficTarget::from_model(&model, &sizes, &sizes, &gaps)
}

#[test]
fn test_model_creation() {
    let model = test_model();
    assert_eq!(model.game_name(), "test");
    assert_eq!(model.size_distribution.len(), 3);
    assert_eq!(model.client_server_ratio(), (500_000, 1_000_000));
    assert_eq!(model.periodicity_strength_micro, 400_000);
}

#[test]
fn a_model_needs_sizes() {
    let mut profile = test_profile();
    profile.size_distribution.clear();
    let error = StatisticalGameTrafficModel::from_profile(&profile).unwrap_err();
    assert_eq!(
        error.to_text(),
        "Configuration error: Profile 'test' has no size distribution components"
    );
}

#[test]
fn test_packet_size_distribution() {
    let model = test_model();
    let mut rng = StdRng::seed_from_u64(42);

    let sizes: Vec<usize> = (0..1000).map(|_| draw_size(&model, &mut rng)).collect();
    let mean: f64 = sizes.iter().sum::<usize>() as f64 / sizes.len() as f64;

    assert!(mean > 80.0 && mean < 300.0, "Mean packet size {} out of expected range", mean);
}

#[test]
fn sizes_are_rounded_and_kept_in_range() {
    assert_eq!(StatisticalGameTrafficModel::sample_packet_size(-5), 40);
    assert_eq!(StatisticalGameTrafficModel::sample_packet_size(90_499_999), 90);
    assert_eq!(StatisticalGameTrafficModel::sample_packet_size(90_500_000), 91);
    assert_eq!(StatisticalGameTrafficModel::sample_packet_size(2_000_000_000), 1500);
    assert_eq!(GaussianComponent::new(5, 10, 7).std_dev_micro, 1_000_000);
}

#[test]
fn test_timing_distribution() {
    let model = test_model();

    let times: Vec<f64> =
        (0..1000).map(|_| model.sample_inter_packet_time() as f64 / 1000.0).collect();
    let mean: f64 = times.iter().sum::<f64>() / times.len() as f64;

    assert!(mean > 10.0 && mean < 40.0, "Mean inter-packet time {} out of expected range", mean);
    for t in times {
        assert!((13.63..=17.63).contains(&t) || (29.25..=33.25).contains(&t) || t >= 48.0);
    }
}

#[test]
fn without_gaps_a_model_waits_fifty_milliseconds() {
    let mut profile = test_profile();
    profile.timing_distribution.clear();
    let model = StatisticalGameTrafficModel::from_profile(&profile).unwrap();
    assert_eq!(model.sample_inter_packet_time(), 50_000);
}

/// How many of `n` sizes each bin is expected to hold, in millionths.
fn expected_counts(model: &StatisticalGameTrafficModel, min: u64, max: u64, n: usize) -> Vec<u64> {
    let width = ((max - min) as f64 / 10.0).max(1.0);
    (0..10)
        .map(|i| {
            let at = min as f64 + (i as f64 + 0.5) * width;
            let density: f64 = model
                .size_distribution
                .iter()
                .map(|c| {
                    let (m, s) = (c.mean_micro as f64 / 1e6, c.std_dev_micro as f64 / 1e6);
                    let z = (at - m) / s;
                    c.weight_micro as f64 / 1e6 * (-z * z / 2.0).exp()
                        / (s * (2.0 * std::f64::consts::PI).sqrt())
                })
                .sum();
            (density * n as f64 * 1e6) as u64
        })
        .collect()
}

#[test]
fn test_chi_squared_test() {
    let model = test_model();
    let mut rng = StdRng::seed_from_u64(42);

    let samples: Vec<u64> = (0..500).map(|_| draw_size(&model, &mut rng) as u64).collect();
    let h = histogram(&samples).unwrap();
    let expected = expected_counts(&model, h.min, h.max, samples.len());
    let chi_sq = chi_squared_test(&samples, &expected);

    assert!(chi_sq.is_some(), "Chi-squared value should be finite");
}

#[test]
fn goodness_of_fit_of_known_samples() {
    let samples: Vec<u64> = (0..100).collect();
    let h = histogram(&samples).unwrap();
    assert_eq!((h.min, h.max), (0, 99));
    assert_eq!(h.counts.iter().sum::<u64>(), 100);
    let expected = vec![10_000_000u64; 10];
    let off: u128 = h.counts.iter().map(|&c| {
        let d = c as i128 * 1_000_000 - 10_000_000;
        (d * d / 10_000_000) as u128
    }).sum();
    assert_eq!(chi_squared_test(&samples, &expected), Some(off));
    assert_eq!(chi_squared_test(&samples[..29], &expected), None);
    assert_eq!(chi_squared_test(&[7; 30], &expected), Some(0));
    assert_eq!(chi_squared_critical_value(9), Some(16_919));
    assert_eq!(chi_squared_critical_value(0), None);
    assert_eq!(chi_squared_critical_value(16), None);
}

#[test]
fn test_entropy_sampling() {
    let model = test_model();
    let mut rng = StdRng::seed_from_u64(42);
    let normal = Normal::new(
        model.entropy_profile.mean_entropy_micro as f64,
        model.entropy_profile.entropy_std_micro as f64,
    )
    .unwrap();

    let entropies: Vec<f64> = (0..100)
        .map(|_| {
            StatisticalGameTrafficModel::sample_entropy(normal.sample(&mut rng) as i64) as f64 / 1e6
        })
        .collect();
    let mean: f64 = entropies.iter().sum::<f64>() / entropies.len() as f64;

    assert!(mean > 6.0 && mean < 8.0, "Mean entropy {} out of expected range", mean);
    for &e in &entropies {
        assert!(e >= 0.0 && e <= 8.0, "Entropy {} out of valid range", e);
    }
    assert_eq!(StatisticalGameTrafficModel::sample_entropy(-1), 0);
    assert_eq!(StatisticalGameTrafficModel::sample_entropy(9_000_000), 8_000_000);
}

#[test]
fn test_burst_generation() {
    let model = test_model();

    if let Some(index) = model.should_burst() {
        let pattern = &model.burst_patterns[index];
        let burst = model.generate_burst(pattern);
        assert!(!burst.is_empty());
        for &size in &burst {
            assert!(size >= pattern.size_range.0 && size <= pattern.size_range.1);
        }
    }
    let burst = model.generate_burst(&model.burst_patterns[0]);
    assert!(burst.len() >= 3 && burst.len() <= 7);
    assert_eq!(model.burst_for_roll(0), Some(0));
    assert_eq!(model.burst_for_roll(ROLL_RANGE / 5), None);
}

#[test]
fn test_arc_rwlock_model() {
    let model_arc = Arc::new(RwLock::new(test_model()));
    let model = model_arc.read().unwrap();
    assert_eq!(model.game_name(), "test");
}

#[test]
fn statistical_model_test_cdf_interpolation() {
    let target = test_target();
    let mut rng = StdRng::seed_from_u64(42);

    for _ in 0..100 {
        let size = target.sample_target_size(rng.gen_range(0..ROLL_RANGE));
        assert!(size >= target.size_dist.min);
        assert!(size <= target.size_dist.max);

        let iat = target.sample_target_iat(rng.gen_range(0..ROLL_RANGE));
        assert!(iat > 0);
    }
}

#[test]
fn test_size_dist_stats_are_valid() {
    let d = test_target().size_dist;

    assert!(d.mean > 0);
    assert!(d.std > 0);
    assert!(d.p25 <= d.median);
    assert!(d.median <= d.p75);
    assert!(d.p75 <= d.p95);
    // 0.5 * 90 + 0.3 * 200 + 0.2 * 400.
    assert_eq!(d.mean, 185_000_000);
    assert_eq!(d.std / 1_000_000, 126);
}

#[test]
fn test_timing_dist_stats_are_valid() {
    let d = test_target().timing_dist;

    assert!(d.mean_iat > 0);
    assert!(d.p50_iat <= d.p95_iat);
    // 0.65 * 15.63 + 0.2 * 31.25 + 0.15 * 50 milliseconds.
    assert_eq!(d.mean_iat, 23_909_500);
    assert_eq!(d.p50_iat, 15_630_000);
    assert_eq!(d.p95_iat, 50_000_000);
}

#[test]
fn sizes_to_measure_are_picked_by_weight() {
    let c = |weight_micro| GaussianComponent {
        mean_micro: 100_000_000,
        std_dev_micro: 10_000_000,
        weight_micro,
    };
    let mixture = [c(200_000), c(500_000), c(300_000)];
    assert_eq!(component_by_weight(&mixture, 0), 0);
    assert_eq!(component_by_weight(&mixture, ROLL_RANGE / 10 * 4), 1);
    // More than any weight: the last.
    assert_eq!(component_by_weight(&mixture, ROLL_RANGE / 10 * 9), 2);
    assert_eq!(component_by_weight(&[c(0), c(0)], ROLL_RANGE / 4), 0);
}

#[test]
fn models_that_cannot_be_measured_are_told() {
    let model = test_model();
    assert!(measurable(&model));
    assert!(drawable(&model.timing_distribution));
    assert!(!drawable(&[(u64::MAX / 1000, 1)]));
    assert!(drawable(&[(u64::MAX / 1000 - 2001, 1)]));
    let mut profile = test_profile();
    profile.timing_distribution[0].probability_micro = 17_000_000;
    let model = StatisticalGameTrafficModel::from_profile(&profile).unwrap();
    assert!(!measurable(&model));
}

#[test]
fn long_gaps_are_measured_in_full() {
    let day_us = 86_400_000_000u64;
    let d = compute_timing_distribution_stats(&[(day_us, 500_000), (3 * day_us, 500_000)]);
    assert_eq!(d.mean_iat, 2000 * day_us as u128);
    assert_eq!(d.std_iat, 1000 * day_us as u128);
    assert_eq!(d.cv, 500_000);
    assert_eq!(d.p95_iat, 3000 * day_us as u128);
}

#[test]
fn rolls_select_by_weight() {
    let cdf = compute_cdf(&[500_000, 300_000, 200_000]);
    assert_eq!(cdf, vec![500_000, 800_000, 1_000_000]);
    assert_eq!(sample_from_cdf(&cdf, 0), 0);
    assert_eq!(sample_from_cdf(&cdf, ROLL_RANGE / 10 * 6), 1);
    assert_eq!(sample_from_cdf(&cdf, ROLL_RANGE - 1), 2);
}
