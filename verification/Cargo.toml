[package]
name = "zm_aidect"
version = "0.1.0"
edition = "2021"
publish = false

[dependencies]
anyhow = "*"
clap = { version = "*", features = ["derive"] }
log = "*"
mysql = { version = "*", default-features = false, features = ["minimal-rust", "derive", "buffer-pool"] }
opencv = { version = "*", default-features = false, features = ["dnn", "imgproc"] }
prometheus = "*"
serde = { version = "*", features = ["derive"] }
serde_json = "*"
stderrlog = "*"
tiny_http = "*"
