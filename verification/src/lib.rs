//! The logic of a game-server node agent: naming and confining paths, console history, container
//! plans, configuration edits, backups, updates and protection rules.

pub mod backup;
pub mod certificate;
pub mod config;
pub mod configuration;
pub mod console;
pub mod docker;
pub mod digest;
pub mod error;
pub mod files;
pub mod json;
pub mod node;
pub mod paths;
pub mod process;
pub mod protection;
pub mod services;
pub mod supervisor;
pub mod table;
pub mod text;
pub mod time;
pub mod update;
