use vstd::prelude::*;

verus! {

/// At most this many connections to one node.
pub const MAX_CONN_COUNT_LIMIT: u64 = 10000;
/// A node keeps at least this many connections.
pub const MIN_CONN_COUNT_LIMIT: u16 = 30;
/// Connections opened at once when a node grows.
pub const GROW_COUNT: u16 = 15;
/// Connections closed at once when a node shrinks.
pub const SHRINK_COUNT: u16 = 8;
/// Seconds of idleness after which a node shrinks.
pub const IDLE_TIME_TO_SHRINK_THRESHOLD: u64 = 1800;
/// Seconds between two checks of a node.
pub const TO_CHECK_TIME_INTERVAL: u64 = 60;
/// Pings of a node before it is reconnected.
pub const PING_RETRY_COUNT: u8 = 3;
/// Seconds between two pings.
pub const PING_RETRY_MIN_INTERVAL: u16 = 5;
/// Connection attempts before a node is taken offline.
pub const RECONNECT_RETRY_COUNT: u8 = 3;
/// Seconds between two connection attempts.
pub const RECONNECT_RETRY_MIN_INTERVAL: u16 = 10;

} // verus!
