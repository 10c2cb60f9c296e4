[package]
name = "atma"
version = "0.1.0"
edition = "2021"
publish = false

[dependencies]
anyhow = "1"
log = "0.4"
png = "0.16"
ron = "0.6"
serde = { version = "1", features = ["derive"] }
structopt = "0.3"
