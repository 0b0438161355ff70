//! What the agent answers its master: who may ask, and what is sent back.

pub mod authorization;
pub mod responses;
pub mod server;
pub mod transfer;
pub mod upload;
