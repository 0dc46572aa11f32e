//! The client side of the proxy: the handshake with a client and the
//! decisions of its session.
pub mod conn;
pub mod errors;
