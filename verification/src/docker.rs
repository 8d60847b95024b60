//! Workers that run as Docker containers.

pub mod controller;
pub mod executor;
pub mod laws;
