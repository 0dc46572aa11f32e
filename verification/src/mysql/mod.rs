//! MySQL wire-protocol pieces: length-encoded integers, packets, framing.
pub mod constants;
pub mod errname;
pub mod errors;
pub mod packet;
pub mod packetio;
pub mod utils;
