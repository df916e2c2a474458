[package]
name = "oi_pkg_checker_core"
version = "0.1.0"
edition = "2021"
publish = false

[dependencies]
fmri = "*"
serde = { version = "1", features = ["derive"] }
serde_json = "1"
bincode = "1"
clap = { version = "4", features = ["derive"] }
colored = "2"
log = "0.4"
