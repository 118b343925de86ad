[package]
name = "nails_core"
version = "0.1.0"
edition = "2021"
publish = false

[dependencies]
chrono = "0.4"
nix = { version = "0.29", features = ["mount", "fs"] }
thiserror = "2"
tracing = "0.1"
tracing-subscriber = { version = "0.3", features = ["json"] }
