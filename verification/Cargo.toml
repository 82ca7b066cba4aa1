[package]
name = "droplets"
version = "0.1.0"
edition = "2021"
publish = false

[dependencies]
rtrb = "*"
arc-swap = "*"
midly = "*"
fastrand = "*"
serde = { version = "1", features = ["derive"] }
serde_json = "1"
dirs = "*"
open = "*"
log = "*"
