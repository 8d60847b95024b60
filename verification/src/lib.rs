//! An autoscaler whose decisions are proved.
//!
//! - [`double`]: double-precision arithmetic in integers, proved correctly rounded
//! - [`text`]: text as sequences of characters
//! - [`shared`]: workloads, metrics, and the controller that sizes replicas by demand
//! - [`types`], [`simulator`], [`controller`], [`scenarios`]: the simulated closed loop
//! - [`http`]: worker processes, the service that they run, the proxy before them and the load
//!   on it
//! - [`docker`]: workers as containers
//! - [`laws`], [`promises`]: what holds of the simulated loop, and of what the functions return

pub mod controller;
pub mod docker;
pub mod double;
pub mod http;
pub mod laws;
pub mod promises;
pub mod scenarios;
pub mod shared;
pub mod simulator;
pub mod text;
pub mod types;
