//! Workers as processes on this machine, the service that they run and the proxy before them.

pub mod controller;
pub mod executor;
pub mod instance;
pub mod laws;
pub mod loadgen;
pub mod process;
pub mod protocol;
pub mod proxy;
pub mod request;
pub mod service;
pub mod sizes;
pub mod wire;
