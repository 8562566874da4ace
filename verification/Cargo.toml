[package]
name = "evm_diff"
version = "0.1.0"
edition = "2021"
publish = false

[dependencies]
alloy-consensus = { version = "*", features = ["serde"] }
alloy-eips = "*"
alloy-primitives = { version = "*", features = ["serde"] }
anyhow = "*"
clap = { version = "*", features = ["derive"] }
eyre = "*"
revm = { version = "*", features = ["serde"] }
rmp-serde = "*"
serde = { version = "*", features = ["derive"] }
tqdm = "*"
