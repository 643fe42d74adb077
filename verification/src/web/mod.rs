//! The HTTPS helper that serves fingerprints and logs to browsers.

pub mod logs;
pub mod site;
