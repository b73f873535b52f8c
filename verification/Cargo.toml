[package]
name = "mixlayer"
version = "0.1.0"
edition = "2021"
publish = false

[dependencies]
anyhow = "1"
bytes = "1"
clap = { version = "4", features = ["derive"] }
http = "*"
log = "0.4"
prost = "*"
serde = { version = "1", features = ["derive"] }
serde_json = "1"
