//! Editing a server's configuration files as its descriptor says.

pub mod descriptor;
pub mod line;
pub mod structured;
pub mod values;
pub mod xml;
