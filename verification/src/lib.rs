//! The verified core of a pure-Rust Media over QUIC stack.

pub mod clock;
pub mod path;
pub mod quic;
pub mod tls;
pub mod web;
