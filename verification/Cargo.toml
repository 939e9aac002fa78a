[package]
name = "tee_prover"
version = "0.1.0"
edition = "2021"
publish = false

[dependencies]
alloy-primitives = "*"
hex = "*"
rand = "*"
secp256k1 = { version = "*", features = ["rand", "recovery", "global-context"] }
serde = { version = "*", features = ["derive"] }
serde_json = "*"
tokio = { version = "*", features = ["rt-multi-thread", "sync", "time", "macros"] }
