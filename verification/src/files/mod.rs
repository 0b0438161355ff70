//! A server's files: looking at them, changing them, and installing modpacks.

pub mod listing;
pub mod modpack;
pub mod operations;
