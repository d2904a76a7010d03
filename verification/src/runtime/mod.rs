//! The session that serves patched scripts to the pages of the application.

pub mod error;
pub mod page;
pub mod requests;
pub mod plan;
pub mod session;
pub mod steps;
pub mod setup;
pub mod readiness;
pub mod ready_laws;
pub mod laws;
pub mod address_laws;
pub mod event_laws;
pub mod outcome;
