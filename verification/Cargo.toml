[package]
name = "seer"
version = "0.1.0"
edition = "2021"
publish = false

[dependencies]
alloy-primitives = "*"
trie-rs = "*"
serde = { version = "1", features = ["derive"] }
serde_json = "1"
thiserror = "*"
reqwest = { version = "*", default-features = false, features = ["json"] }
tokio = { version = "1", features = ["rt-multi-thread", "macros"] }
async-trait = "*"
eyre = "*"
futures = "*"
