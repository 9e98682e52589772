[package]
name = "blockproof"
version = "0.1.0"
edition = "2021"
publish = false

[dependencies]
sha2 = "=0.10.9"
bellman = "=0.14.0"
blstrs = "=0.7.1"
ff = "=0.13.1"
rand = "=0.8.8"
serde = { version = "1", features = ["derive"] }
serde_json = "1"
tokio = { version = "1", features = ["macros", "rt-multi-thread", "time"] }
