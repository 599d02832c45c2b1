[package]
name = "psi_fracpack"
version = "0.1.0"
edition = "2021"
publish = false

[dependencies]
async-graphql = "*"
futures = "0.3"
near-sdk = { version = "4.1.1", default-features = false }
proc-macro2 = "1"
quote = "1"
serde = { version = "1", features = ["derive"] }
serde_json = "1"
syn = { version = "2", features = ["full"] }
