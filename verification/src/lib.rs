//! Cluster planning and launch-argument logic for distributed llama.cpp inference.
pub mod text;
pub mod model;
pub mod process;
pub mod stats;
pub mod cluster;
pub mod flags;
pub mod planner;
pub mod profile;
pub mod version;
pub mod stats_nvidia;
pub mod stats_macos;
pub mod poller;
pub mod catalog;
pub mod config;
pub mod server;
