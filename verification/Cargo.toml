[package]
name = "oneiroi"
version = "0.1.0"
edition = "2021"
publish = false

[dependencies]
glam = { version = "*", features = ["serde"] }
im = { version = "*", features = ["serde"] }
itertools = "*"
petgraph = { version = "*", features = ["serde-1"] }
serde = { version = "*", features = ["derive"] }
serde_json = "*"
smallvec = { version = "*", features = ["serde"] }
