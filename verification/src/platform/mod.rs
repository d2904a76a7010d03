//! Rules for installed applications, their processes and the pipe to them.

pub mod frames;
pub mod laws;
pub mod macos;
pub mod process;
pub mod manifest;
pub mod manifest_laws;
pub mod packages;
pub mod wide;
