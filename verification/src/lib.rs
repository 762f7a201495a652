//! Hourglass: a daily screen-time limiter for Linux desktop sessions.
//!
//! The verified part of the project: parsing `loginctl` output, the
//! per-user time accounting and the decisions the enforcement daemon,
//! the PAM hook and the status command take.

pub mod config;
pub mod daemon;
pub mod date;
pub mod fmt;
pub mod notify;
pub mod pam;
pub mod session;
pub mod state;
pub mod status;
pub mod text;
pub mod usermap;
