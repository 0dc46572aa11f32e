//! Shard routing: from a proxy user, database, table and shard value to the
//! cluster and physical table that hold the row.
pub mod decision;
pub mod error;
pub mod router_brain;
