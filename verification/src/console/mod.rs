//! Server consoles: decoding container output, keeping bounded history, and deciding which
//! readers run.

pub mod decoder;
pub mod history;
pub mod lifecycle;
pub mod reader;
