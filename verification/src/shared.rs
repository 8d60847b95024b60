//! What the simulator and the controllers of real workers have in common.

pub mod controller;
pub mod laws;
pub mod metrics;
pub mod scaling;
pub mod types;
pub mod workload;
