//! Verified core of a GPU/desktop control panel backend: parsing of the
//! text that system tools print, and construction of the shell commands
//! and messages that the panel hands back to its frontend.

pub mod text;
pub mod decimal;
pub mod telemetry;
pub mod processes;
pub mod commands;
