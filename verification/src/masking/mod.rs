//! Shaping of tunnelled data into game-like traffic.

pub mod adaptive_learner;
pub mod adversarial;
pub mod averages;
pub mod blend_weights;
pub mod burst_engine;
pub mod burst_learning;
pub mod contexts;
pub mod dpi_analysis;
pub mod dpi_features;
pub mod dpi_signatures;
pub mod dpi_simulator;
pub mod empirical;
pub mod game_packet;
pub mod kcp_engine;
pub mod kcp_wrapper;
pub mod packet;
pub mod periodicity;
pub mod profiles;
pub mod protocol_blender;
pub mod protocol_stats;
pub mod reassembly;
pub mod similarity;
pub mod statistical_model;
pub mod timing;
pub mod timing_simulator;
pub mod traffic_morpher;
pub mod traffic_target;
