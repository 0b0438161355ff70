//! The node that the agent runs on: its load, its alerts, and its packages.

pub mod crowdsec;
pub mod linux_packages;
pub mod telemetry;
pub mod usage;
