[package]
name = "arbitrary_state_machine"
version = "0.1.0"
edition = "2021"
publish = false

[dependencies]
anyhow = "=1.0.104"
ethereum-bigint = "=0.2.9"
ethereum-rlp = "=0.2.3"
ethereum-trie = "=0.5.0"
hex = "=0.4.3"
sha3 = "=0.6.0"
wasmi = { version = "=2.0.0", default-features = false, features = ["std", "stable", "validate", "auto-dispatch", "deterministic"] }
