//! Plans for containers: what they run, what they expose, and how they are provisioned.

pub mod container;
pub mod database;
pub mod disk;
pub mod exec;
pub mod flow;
pub mod inspection;
pub mod installer;
pub mod lifecycle;
pub mod ports;
pub mod provisioning;
pub mod recreation;
pub mod runtime;
