[package]
name = "corepin"
version = "0.1.0"
edition = "2021"
publish = false

[dependencies]
num_cpus = "1"
mio = { version = "0.8", features = ["os-poll", "net"] }
socket2 = { version = "0.4", features = ["all"] }
nix = "0.26"
core_affinity = "0.8"
futures = "0.3"
tokio = { version = "1", default-features = false }
hyper = { version = "0.14", features = ["server"] }
