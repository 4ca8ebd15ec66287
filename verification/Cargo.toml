[package]
name = "supply_chain"
version = "0.1.0"
edition = "2021"
publish = false

[dependencies]
fixed = "=1.31.0"
typenum = "=1.20.1"
parity-scale-codec = { version = "=1.3.7", features = ["derive"] }
sp-std = "=2.0.1"
sp-core = "=2.0.1"
sp-io = "=2.0.1"
sp-runtime = "=2.0.1"
frame-support = "=2.0.1"
frame-system = "=2.0.1"
pallet-timestamp = "=2.0.1"
alt_serde = { version = "=1.0.119", default-features = false, features = ["derive"] }
alt_serde_json = { version = "=1.0.61", default-features = false, features = ["alloc"] }
sp-application-crypto = "2.0.0"
sp-consensus-aura = "0.8.0"
sp-finality-grandpa = "2.0.0"
pallet-contracts = "2.0.0"
