//! The proxy's configuration: what the TOML file holds, and the lookups the
//! rest of the proxy makes in it.
pub mod configer;
pub mod schema;
pub mod shortcut;
