//! A clock that is published and followed over a track.

pub mod civil;
pub mod decimal;
pub mod publisher;
pub mod subscriber;
pub mod system;
pub mod utc;
