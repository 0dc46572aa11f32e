//! The database side of the proxy: pools of connections to the MySQL
//! nodes, and the rules that grow, shrink and check them.
pub mod constants;
pub mod error;
pub mod pool;
