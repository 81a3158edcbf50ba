[package]
name = "droplet_core"
version = "0.1.0"
edition = "2021"
publish = false

[dependencies]
monty = "=0.0.23"
monty-types = "=0.0.23"
inventory = "=0.3.25"
thiserror = "=2.0.21"
tokio = { version = "=1.54.1", features = ["rt-multi-thread", "macros"] }
async-trait = "=0.1.92"
pyo3 = "=0.29.3"
syn = { version = "=2.0.119", features = ["full"] }
quote = "=1.0.47"
anyhow = "=1.0.104"
