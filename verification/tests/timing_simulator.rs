use phantom::masking::profiles::{
    BurstPatternDef, EntropyProfileDef, GamingProfile, GaussianComponentDef, TimingBinDef,
};
use phantom::masking::statistical_model::{StatisticalGameTrafficModel, ROLL_RANGE};
use phantom::masking::timing_simulator::{
    AdaptiveTimingController, DelaySample, PacketTimingSimulator, TimingTarget, HISTORY,
};
use phantom::masking::traffic_target::{
    build_empirical_cdf, compute_timing_distribution_stats, draw_gap_samples, sample_quantile,
};
use rand::rngs::StdRng;
use rand::{Rng, SeedableRng};
use rand_distr::{Distribution, Normal};

fn test_model() -> StatisticalGameTrafficModel {
    let profile = GamingProfile {
        name: "test".to_string(),
        packet_size_min: 60,
        packet_size_max: 400,
        heartbeat_interval_ms: 30000,
        jitter_ms: 50,
        frequency_hz: 64,
        size_distribution: vec![
            GaussianComponentDef {
                mean_micro: 90_000_000,
                std_dev_micro: 15_000_000,
                weight_micro: 500_000,
            },
            GaussianComponentDef {
                mean_micro: 200_000_000,
                std_dev_micro: 50_000_000,
                weight_micro: 500_000,
            },
        ],
        timing_distribution: vec![
            TimingBinDef { time_us: 15_630, probability_micro: 650_000 },
            TimingBinDef { time_us: 31_250, probability_micro: 200_000 },
            TimingBinDef { time_us: 50_000, probability_micro: 150_000 },
        ],
        burst_patterns: vec![BurstPatternDef {
            name: "test_burst".to_string(),
            packet_count_range: (3, 7),
            inter_packet_time_range_us: (5_000, 15_000),
            size_range: (80, 200),
            probability_micro: 100_000,
        }],
        client_server_size_ratio_micro: (500_000, 1_000_000),
        entropy_profile: Some(EntropyProfileDef {
            mean_entropy_micro: 7_200_000,
            entropy_std_micro: 300_000,
        }),
    };

    StatisticalGameTrafficModel::from_profile(&profile).unwrap()
}

struct Rig {
    simulator: PacketTimingSimulator,
    table: Vec<u64>,
    rng: StdRng,
}

impl Rig {
    fn new() -> Rig {
        let model = test_model();
        let stats = compute_timing_distribution_stats(&model.timing_distribution);
        let target = TimingTarget {
            mean_us: (stats.mean_iat / 1000) as u32,
            std_us: (stats.std_iat / 1000) as u32,
            median_us: (stats.p50_iat / 1000) as u32,
            p95_us: (stats.p95_iat / 1000) as u32,
            cv_micro: stats.cv as u32,
        };
        let table = build_empirical_cdf(&draw_gap_samples(&model));
        let simulator = PacketTimingSimulator::new(model, target);
        Rig { simulator, table, rng: StdRng::seed_from_u64(42) }
    }

    fn next_delay(&mut self) -> u64 {
        let noise_ns = self.simulator.phase_noise_ns() as f64;
        let noise = Normal::new(0.0, noise_ns).unwrap().sample(&mut self.rng);
        let sample = DelaySample {
            model_ns: sample_quantile(&self.table, self.rng.gen_range(0..ROLL_RANGE)) as i64,
            pulse_ns: 0,
            phase_offset_ns: 0,
            noise_ns: noise as i64,
            burst_gap_us: self.simulator.draw_burst_gap(),
        };
        self.simulator.next_delay(&sample)
    }

    fn run(&mut self, n: usize) {
        for _ in 0..n {
            let delay = self.next_delay();
            self.simulator.update(delay as u32);
        }
    }
}

#[test]
fn timing_simulator_test_simulator_creation() {
    let simulator = Rig::new().simulator;
    assert_eq!(simulator.tick_rate_micro(), 64_000_000);
    assert_eq!(HISTORY, 256);
    assert!(simulator.history().is_empty());
}

#[test]
fn test_next_delay_produces_valid_durations() {
    let mut rig = Rig::new();
    for _ in 0..100 {
        let delay = rig.next_delay();
        assert!(delay > 0, "Delay must be positive");
        assert!(delay < 10_000_000, "Delay must be less than 10 seconds");
    }
    assert_eq!(rig.simulator.phase(), 100);
}

#[test]
fn test_update_records_history() {
    let mut simulator = Rig::new().simulator;

    for i in 0..50 {
        simulator.update(1000 * (15 + (i % 5)));
    }

    assert_eq!(simulator.history().len(), 50);
}

#[test]
fn test_history_wraps_at_capacity() {
    let mut simulator = Rig::new().simulator;

    for i in 0..300 {
        simulator.update(1000 * (15 + (i % 10)));
    }

    assert_eq!(simulator.history().len(), HISTORY);
    assert_eq!(simulator.history()[0], 19_000);
}

#[test]
fn test_get_statistics_returns_valid_values() {
    let mut rig = Rig::new();
    rig.run(100);

    let stats = rig.simulator.get_statistics();
    assert!(stats.sample_count > 0);
    assert!(stats.median_us > 0);
    assert!(stats.mean_ns > 0);
    assert!(stats.p25_us <= stats.median_us);
    assert!(stats.median_us <= stats.p75_us);
    assert!(stats.p75_us <= stats.p95_us);
}

#[test]
fn statistics_of_known_delays() {
    let mut simulator = Rig::new().simulator;
    for us in [1_000, 2_000, 3_000, 4_000, 10_000] {
        simulator.update(us);
    }
    let stats = simulator.get_statistics();
    assert_eq!(stats.sample_count, 5);
    assert_eq!(stats.median_us, 3_000);
    assert_eq!(stats.mean_ns, 4_000_000);
    assert_eq!(stats.std_ns, 3_162_277);
    assert_eq!(stats.cv_micro, 790_569);
    assert_eq!((stats.p25_us, stats.p75_us, stats.p95_us), (2_000, 4_000, 10_000));
}

/// The normal distribution's part below `z` deviations.
fn below(z: f64) -> f64 {
    let t = 1.0 / (1.0 + 0.2316419 * z.abs());
    let tail = (-z * z / 2.0).exp() / (2.0 * std::f64::consts::PI).sqrt()
        * t
        * (0.319381530
            + t * (-0.356563782
                + t * (1.781477937 + t * (-1.821255978 + t * 1.330274429))));
    if z >= 0.0 {
        1.0 - tail
    } else {
        tail
    }
}

#[test]
fn test_validate_timing_with_sufficient_samples() {
    let mut rig = Rig::new();
    rig.run(100);

    let mut sorted = rig.simulator.history();
    sorted.sort();
    let (mean, std) = (20_000.0, 12_000.0);
    let theory: Vec<u64> =
        sorted.iter().map(|&x| (below((x as f64 - mean) / std) * 1e6) as u64).collect();
    let (low, high, _) = rig.simulator.delay_bins().unwrap();
    let width = (high - low) as f64 / 10.0;
    let expected: Vec<u64> = (0..10)
        .map(|i| {
            let from = low as f64 + i as f64 * width;
            let part = below((from + width - mean) / std) - below((from - mean) / std);
            (part.max(0.0) * sorted.len() as f64 * 1e6) as u64
        })
        .collect();
    let validation = rig.simulator.validate_timing(&expected, &theory);
    assert!(validation.chi_squared_milli.is_some());
    assert!(validation.ks_micro.is_some());
}

#[test]
fn validation_measures_the_fit() {
    let mut simulator = Rig::new().simulator;
    // Four delays in each of ten bins.
    for i in 0..40 {
        simulator.update(1000 + 100 * (i % 10) + i / 10 * 25);
    }
    let (low, high, counts) = simulator.delay_bins().unwrap();
    assert_eq!((low, high), (1_000, 1_975));
    assert_eq!(counts.iter().sum::<u64>(), 40);
    let expected: Vec<u64> = counts.iter().map(|c| 1_000_000 * c).collect();
    let theory: Vec<u64> = (1..=40).map(|i| 25_000 * i).collect();
    let v = simulator.validate_timing(&expected, &theory);
    assert_eq!(v.chi_squared_milli, Some(0));
    assert_eq!(v.ks_micro, Some(0));
    assert!(v.passes);
    // Expected to be a quarter off at one place: 1.36 by the root of 40 is less.
    let mut off = theory.clone();
    off[10] += 250_000;
    let v = simulator.validate_timing(&expected, &off);
    assert_eq!(v.ks_micro, Some(250_000));
    assert!(!v.passes);
    // Twice as many expected in each bin: half of the expected counts.
    let twice: Vec<u64> = expected.iter().map(|c| 2 * c).collect();
    let v = simulator.validate_timing(&twice, &theory);
    assert_eq!(v.chi_squared_milli, Some(20_000));
    assert!(!v.passes);
}

#[test]
fn test_validate_timing_with_insufficient_samples() {
    let simulator = Rig::new().simulator;

    let validation = simulator.validate_timing(&[], &[]);
    assert!(!validation.passes);
    assert_eq!(validation.chi_squared_milli, None);
}

#[test]
fn test_calibration_resets_state() {
    let mut rig = Rig::new();
    rig.run(50);

    rig.simulator.calibrate();

    assert!(rig.simulator.history().is_empty());
    let stats_after = rig.simulator.get_statistics();
    assert_eq!(stats_after.sample_count, 0);
}

#[test]
fn calibration_follows_the_median() {
    let mut simulator = Rig::new().simulator;
    for _ in 0..20 {
        simulator.update(31_260);
    }
    // The target median is half of what was measured, so ticks come half as often.
    simulator.calibrate();
    assert_eq!(simulator.tick_rate_micro(), 32_000_000);
}

#[test]
fn test_timing_statistics_percentile_ordering() {
    let mut rig = Rig::new();
    rig.run(200);

    let stats = rig.simulator.get_statistics();
    assert!(
        stats.p25_us <= stats.median_us,
        "P25 should be <= median: {} vs {}",
        stats.p25_us,
        stats.median_us
    );
    assert!(
        stats.median_us <= stats.p75_us,
        "Median should be <= P75: {} vs {}",
        stats.median_us,
        stats.p75_us
    );
    assert!(
        stats.p75_us <= stats.p95_us,
        "P75 should be <= P95: {} vs {}",
        stats.p75_us,
        stats.p95_us
    );
}

#[test]
fn test_adaptive_controller_correction() {
    let mut controller = AdaptiveTimingController::new(15_630, 300_000);

    let correction = controller.update(20_000, 500_000);
    assert!((correction as f64).is_finite());
    // 0.7 * -4.37 - 0.2 * 15.63 * 0.3 is -3.9968 ms, times 0.01 + 0.001 + 0.005.
    assert_eq!(correction, -639_488_000_000);

    let correction2 = controller.update(10_000, 200_000);
    assert!((correction2 as f64).is_finite());
}

#[test]
fn test_simulator_produces_realistic_delays_for_64hz() {
    let mut rig = Rig::new();

    let mut delays: Vec<f64> = Vec::with_capacity(500);
    for _ in 0..500 {
        let delay = rig.next_delay();
        delays.push(delay as f64 / 1000.0);
        rig.simulator.update(delay as u32);
    }

    let mean: f64 = delays.iter().sum::<f64>() / delays.len() as f64;
    assert!(
        mean > 5.0 && mean < 60.0,
        "Mean delay {:.2}ms out of realistic range for 64Hz",
        mean
    );
}

#[test]
fn test_simulator_no_zero_delays() {
    let mut rig = Rig::new();

    for _ in 0..1000 {
        let delay = rig.next_delay();
        assert!(delay > 0, "Zero delay detected, which would cause tight loop");
    }
}

#[test]
fn delays_are_never_below_half_a_millisecond() {
    let mut simulator = Rig::new().simulator;
    let sample = DelaySample {
        model_ns: 0,
        pulse_ns: -1_000_000_000,
        phase_offset_ns: 0,
        noise_ns: 0,
        burst_gap_us: None,
    };
    assert_eq!(simulator.next_delay(&sample), 500);
    // On the period already: nothing draws the delay elsewhere.
    let on_time = DelaySample { model_ns: 15_625_000, pulse_ns: 0, ..sample };
    assert_eq!(simulator.next_delay(&on_time), 15_625);
}
