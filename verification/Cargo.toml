[package]
name = "dns_zones"
version = "0.1.0"
edition = "2021"
publish = false

[dependencies]
rand = "*"
chrono = "*"
clap = { version = "*", features = ["derive", "env"] }
tokio = { version = "*", features = ["rt-multi-thread", "macros", "net"] }
tracing = "*"
tracing-subscriber = "*"
thiserror = "*"
async-trait = "*"
trust-dns-server = "*"
