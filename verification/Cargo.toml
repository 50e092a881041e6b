[package]
name = "p2p_rust_chord"
version = "0.1.0"
edition = "2021"
publish = false

[dependencies]
sha1 = "0.10"
serde = "1"
serde_derive = "1"
serde_json = "1"
actix-web = "4"
actix-rt = "2"
hyper = { version = "0.14", features = ["full"] }
tokio = { version = "1", features = ["full"] }
pretty_env_logger = "0.5"
