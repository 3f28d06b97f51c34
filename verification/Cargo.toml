[package]
name = "spk_tools"
version = "0.1.0"
edition = "2021"
publish = false

[dependencies]
rand = { version = "=0.8.8", features = ["small_rng"] }
clap = { version = "=4.4.18", features = ["derive"] }
colored = "=2.1.0"
console = "=0.15.11"
