[package]
name = "aquadoggo"
version = "0.1.0"
edition = "2021"
publish = false

[dependencies]
anyhow = "1"
async-graphql = { version = "*", default-features = false }
async-trait = "0.1"
capnp = "*"
capnp-rpc = "*"
futures = "0.3"
hex = "0.4"
log = "0.4"
p2panda-rs = { version = "*", features = ["storage-provider"] }
sqlx = { version = "*", default-features = false, features = ["runtime-tokio", "sqlite"] }
tokio = { version = "1", features = ["rt", "net", "macros", "sync"] }
tokio-util = { version = "0.7", features = ["compat"] }
tonic = "*"
