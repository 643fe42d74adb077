//! Certificates, private keys and trusted roots.

pub mod args;
pub mod certs;
pub mod config;
pub mod digest;
pub mod error;
pub mod load;
pub mod pem;
pub mod provider;
pub mod roots;
