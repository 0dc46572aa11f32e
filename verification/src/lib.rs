//! Sparrow: the verified core of a hash-sharding MySQL/MariaDB proxy.
pub mod analyer;
pub mod mysql;
pub mod text;
pub mod backend;
pub mod config;
pub mod frontend;
pub mod keyed;
pub mod router;
