[package]
name = "umasim"
version = "0.1.0"
edition = "2021"
publish = false

[dependencies]
anyhow = "1"
bincode = "1"
colored = "3"
comfy-table = "7"
flexi_logger = "0.31"
fs-err = "3"
log = "0.4"
rand = "0.9"
rand_distr = "0.5"
serde = { version = "1", features = ["derive"] }
serde_json = "1"
