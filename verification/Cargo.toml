[package]
name = "sparrow"
version = "0.1.0"
edition = "2021"
publish = false

[dependencies]
byteorder = "1"
sha1 = "0.6"
rand = "0.7"
serde = { version = "1", features = ["derive"] }
toml = "0.5"
log = "0.4"
async-std = "1"
femme = "2"
