//! The batch environment a trainer drives over a binary stream.

pub mod batch;
pub mod protocol;
pub mod seeds;
pub mod server;
pub mod wire;
pub mod workers;
