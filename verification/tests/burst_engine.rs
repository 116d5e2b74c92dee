use phantom::masking::burst_engine::{
    BurstEngine, BurstSamples, BurstState, BurstType, PacketAction, StatisticalGameTrafficModel,
};
use phantom::masking::profiles::{
    BurstPatternDef, EntropyProfileDef, GamingProfile, GaussianComponentDef, TimingBinDef,
};

fn component(mean: i64, std_dev: i64, weight_micro: u64) -> GaussianComponentDef {
    GaussianComponentDef {
        mean_micro: 1_000_000 * mean,
        std_dev_micro: 1_000_000 * std_dev,
        weight_micro,
    }
}

fn pattern(
    name: &str,
    count: (usize, usize),
    time_us: (u64, u64),
    size: (usize, usize),
    probability_micro: u64,
) -> BurstPatternDef {
    BurstPatternDef {
        name: name.to_string(),
        packet_count_range: count,
        inter_packet_time_range_us: time_us,
        size_range: size,
        probability_micro,
    }
}

fn make_profile() -> GamingProfile {
    GamingProfile {
        name: "test_game".to_string(),
        packet_size_min: 60,
        packet_size_max: 300,
        heartbeat_interval_ms: 30000,
        jitter_ms: 50,
        frequency_hz: 60,
        size_distribution: vec![
            component(75, 12, 550_000),
            component(180, 40, 300_000),
            component(280, 20, 150_000),
        ],
        timing_distribution: vec![
            TimingBinDef { time_us: 16_670, probability_micro: 700_000 },
            TimingBinDef { time_us: 33_330, probability_micro: 150_000 },
            TimingBinDef { time_us: 50_000, probability_micro: 100_000 },
            TimingBinDef { time_us: 100_000, probability_micro: 50_000 },
        ],
        burst_patterns: vec![
            pattern("shooting", (5, 10), (5_000, 15_000), (60, 150), 400_000),
            pattern("movement", (2, 4), (15_000, 20_000), (60, 100), 600_000),
        ],
        client_server_size_ratio_micro: (600_000, 1_000_000),
        entropy_profile: Some(EntropyProfileDef {
            mean_entropy_micro: 7_200_000,
            entropy_std_micro: 300_000,
        }),
    }
}

fn make_test_model() -> StatisticalGameTrafficModel {
    StatisticalGameTrafficModel::from_profile(&make_profile()).unwrap()
}

fn samples() -> BurstSamples {
    BurstSamples {
        now_us: 0,
        clock_ms: 11,
        inter_burst_ms: 8_000,
        packet_count: 7,
        inter_packet_delay_ms: 10,
        burst_sizes: [80; 5],
        idle_sizes: [90, 90],
        idle_delays_ms: [100, 200],
        cooldown_ms: 2_000,
        cooldown_size: 100,
        cooldown_delay_ms: 400,
    }
}

#[test]
fn idle_sizes_need_a_component_in_range() {
    let mut model = StatisticalGameTrafficModel::from_profile(&make_profile()).unwrap();
    assert!(model.idles());
    model.size_components = vec![component(5000, 10, 1_000_000)];
    assert!(!model.idles());
    model.size_components.clear();
    assert!(!model.idles());
}

#[test]
fn test_burst_engine_creation() {
    let model = make_test_model();
    let engine = BurstEngine::new(model, 0);
    assert!(matches!(engine.state, BurstState::Idle { .. }));
    assert_eq!(engine.pending_data.len(), 0);
    assert_eq!(engine.sequence_counter, 0);
}

#[test]
fn test_process_with_data_generates_actions() {
    let model = make_test_model();
    let mut engine = BurstEngine::new(model, 0);
    let actions = engine.process(vec![1, 2, 3, 4], &samples());
    assert!(!actions.is_empty());
    assert_eq!(engine.total_bursts_generated, 1);
    assert_eq!(engine.total_packets_sent, actions.len() as u64);
}

#[test]
fn test_process_empty_data_still_generates_keepalive() {
    let model = make_test_model();
    let mut engine = BurstEngine::new(model, 0);
    let actions = engine.process(Vec::new(), &samples());
    assert!(!actions.is_empty());
    assert!(matches!(actions[0], PacketAction::Keepalive { delay_us: 100_000 }));
}

#[test]
fn test_burst_type_classification() {
    let classify = StatisticalGameTrafficModel::classify_burst_type;
    assert_eq!(classify("shooting"), BurstType::Shooting);
    assert_eq!(classify("movement"), BurstType::Movement);
    assert_eq!(classify("map_load"), BurstType::MapLoad);
    assert_eq!(classify("voice_chat"), BurstType::VoiceChat);
    assert_eq!(classify("inventory"), BurstType::Inventory);
    assert_eq!(classify("unknown"), BurstType::Movement);
    assert_eq!(classify("Open FIRE"), BurstType::Shooting);
}

#[test]
fn test_packet_action_variants() {
    let send = PacketAction::Send { data: vec![1], delay_us: 1_000 };
    let pad = PacketAction::Pad { size: 10, delay_us: 1_000 };
    let split = PacketAction::Split { data: vec![vec![1], vec![2]], delay_us: 1_000 };
    let keepalive = PacketAction::Keepalive { delay_us: 1_000 };
    assert!(matches!(send, PacketAction::Send { .. }));
    assert!(matches!(pad, PacketAction::Pad { .. }));
    assert!(matches!(split, PacketAction::Split { .. }));
    assert!(matches!(keepalive, PacketAction::Keepalive { .. }));
}

#[test]
fn test_next_action_delay_returns_valid_duration() {
    let model = make_test_model();
    let engine = BurstEngine::new(model, 0);
    let delay = engine.next_action_delay(700);
    assert!(delay > 0);
    assert_eq!(delay, 700_000);
}

#[test]
fn states_follow_one_another() {
    let mut engine = BurstEngine::new(make_test_model(), 0);
    let s = samples();
    engine.enqueue(vec![1]);
    // The roll is below four tenths: shooting.
    engine.check_burst_transition(&s, 0);
    assert_eq!(
        engine.state,
        BurstState::BurstActive {
            packets_remaining: 7,
            inter_packet_delay_us: 10_000,
            burst_type: BurstType::Shooting,
            current_packet_index: 0,
            total_packets: 7,
        }
    );
    for n in [3, 3, 1] {
        engine.act(&s, 0, n);
    }
    engine.check_burst_transition(&s, 0);
    assert_eq!(
        engine.state,
        BurstState::PostBurstCooldown {
            cooldown_remaining_us: 2_000_000,
            burst_type_just_finished: BurstType::Shooting,
        }
    );
    let later = BurstSamples { now_us: 3_000_000, ..s };
    engine.act(&later, 0, 1);
    engine.check_burst_transition(&later, 0);
    assert_eq!(
        engine.state,
        BurstState::Idle { last_activity_us: 3_000_000, time_since_last_burst_us: 0 }
    );
}

#[test]
fn a_roll_picks_the_pattern() {
    let engine = BurstEngine::new(make_test_model(), 0);
    let whole: u64 = 1 << 52;
    assert_eq!(engine.select_burst_pattern(0), 0);
    assert_eq!(engine.select_burst_pattern(whole / 10 * 4), 0);
    assert_eq!(engine.select_burst_pattern(whole / 2), 1);
    assert_eq!(engine.find_pattern_for_type(BurstType::Movement), 1);
    assert_eq!(engine.find_pattern_for_type(BurstType::MapLoad), 0);
}

#[test]
fn a_burst_splits_what_does_not_fit_and_pads_what_is_short() {
    let mut engine = BurstEngine::new(make_test_model(), 0);
    let s = samples();
    engine.enqueue(vec![5; 100]);
    engine.enqueue(vec![6; 30]);
    engine.check_burst_transition(&s, 0);
    let actions = engine.act(&s, 0, 3);
    assert_eq!(actions.len(), 4);
    match &actions[0] {
        PacketAction::Split { data, delay_us } => {
            assert_eq!(data, &vec![vec![5u8; 80], vec![5u8; 20]]);
            assert_eq!(*delay_us, 10_000);
        }
        other => panic!("{:?}", other),
    }
    match &actions[1] {
        PacketAction::Send { data, delay_us } => {
            assert_eq!(data, &vec![6u8; 30]);
            assert_eq!(*delay_us, 6_000);
        }
        other => panic!("{:?}", other),
    }
    assert!(matches!(actions[2], PacketAction::Pad { size: 50, delay_us: 100 }));
    match &actions[3] {
        PacketAction::Send { data, .. } => {
            // A filler is a segment that says its own size.
            assert_eq!(data.len(), 80);
            assert_eq!(&data[4..8], &[0x81, 0, 32, 0]);
            assert_eq!(&data[8..12], &[11, 0, 0, 0]);
            assert_eq!(&data[20..24], &[80, 0, 0, 0]);
        }
        other => panic!("{:?}", other),
    }
    assert_eq!(engine.sequence_counter, 1);
}

#[test]
fn a_cooldown_sends_ever_more_often() {
    let mut engine = BurstEngine::new(make_test_model(), 0);
    let s = samples();
    let whole: u64 = 1 << 52;
    let cooling = |left_us: u64| BurstState::PostBurstCooldown {
        cooldown_remaining_us: left_us,
        burst_type_just_finished: BurstType::MapLoad,
    };
    // At its usual length of 2500 ms nothing is sent, half way in every fourth round.
    engine.state = cooling(2_500_000);
    assert!(engine.act(&s, 0, 1).is_empty());
    engine.state = cooling(1_250_000);
    assert_eq!(engine.act(&s, whole / 4 - 1, 1).len(), 1);
    engine.state = cooling(1_250_000);
    assert!(engine.act(&s, whole / 4, 1).is_empty());
    // At its end, in four of five.
    engine.state = cooling(1);
    assert_eq!(engine.act(&s, whole / 5 * 4 - 1, 1).len(), 1);
    engine.state = cooling(1);
    assert!(engine.act(&s, whole / 5 * 4 + 1, 1).is_empty());
    // Packets shrink to half after a map was loaded.
    engine.state = cooling(1);
    engine.enqueue(vec![3; 60]);
    match &engine.act(&s, 0, 1)[0] {
        PacketAction::Send { data, delay_us } => {
            assert_eq!(data, &vec![3u8; 50]);
            assert_eq!(*delay_us, 400_000);
        }
        other => panic!("{:?}", other),
    }
    assert_eq!(engine.pending_data.len(), 1);
}

#[test]
fn idle_sizes_keep_to_the_mixture() {
    let model = make_test_model();
    // 75 - 3 * 12 and 280 + 3 * 20.
    assert_eq!(model.idle_packet_size(0), 39);
    assert_eq!(model.idle_packet_size(200), 200);
    assert_eq!(model.idle_packet_size(5000), 340);
    let whole: u64 = 1 << 52;
    assert_eq!(model.idle_component(0), 0);
    assert_eq!(model.idle_component(whole / 100 * 60), 1);
    assert_eq!(model.idle_component(whole - 1), 2);
}

#[test]
fn flat_patterns_are_refused() {
    let mut profile = make_profile();
    profile.burst_patterns[1].packet_count_range = (0, 0);
    let error = StatisticalGameTrafficModel::from_profile(&profile).unwrap_err();
    assert_eq!(
        error.to_text(),
        "Configuration error: Invalid gamma distribution for packet count: shape is not positive in gamma distribution"
    );
    let mut profile = make_profile();
    profile.burst_patterns[0].inter_packet_time_range_us = (0, 0);
    assert!(StatisticalGameTrafficModel::from_profile(&profile).is_err());
}

#[test]
fn probabilities_that_do_not_add_up_are_scaled() {
    let mut profile = make_profile();
    profile.burst_patterns[0].probability_micro = 100_000;
    profile.burst_patterns[1].probability_micro = 300_000;
    let model = StatisticalGameTrafficModel::from_profile(&profile).unwrap();
    assert_eq!(model.probability_scale_micro, 400_000);
    let engine = BurstEngine::new(model, 0);
    assert_eq!(engine.select_burst_pattern((1 << 52) / 5), 0);
    assert_eq!(engine.select_burst_pattern((1 << 52) / 3), 1);
}
