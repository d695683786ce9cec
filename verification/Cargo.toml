[package]
name = "problemreductions"
version = "0.1.0"
edition = "2021"
publish = false

[dependencies]
petgraph = "*"
num-bigint = "*"
num-traits = "*"
serde = { version = "1", features = ["derive"] }
serde_json = "1"
