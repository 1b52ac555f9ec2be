[package]
name = "rustybgp"
version = "0.1.0"
edition = "2021"
publish = false

[dependencies]
patricia_tree = "0.5"
bytes = "0.5"
clap = "2.33"
futures = "0.3"
prost = "0.6"
prost-types = "0.6"
tokio = { version = "0.2", features = ["full"] }
tokio-util = { version = "0.2", features = ["codec"] }
tonic = "0.1"
