//! Protection of QUIC packets, retry tags and tokens.

pub mod gcm;
pub mod header;
pub mod packet;
pub mod token;
