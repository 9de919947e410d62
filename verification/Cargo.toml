[package]
name = "io-pim-discovery"
version = "0.1.0"
edition = "2021"
publish = false

[dependencies]
url = "2"
log = "0.4"
thiserror = "2"
serde = { version = "1", features = ["derive"] }
clap = { version = "4", features = ["derive"] }
anyhow = "1"
pimalaya-cli = "0.2"
pimalaya-stream = "0.3"
