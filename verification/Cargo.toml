[package]
name = "proposal_script"
version = "0.1.0"
edition = "2021"
publish = false

[dependencies]
ckb-hash = { version = "*", default-features = false, features = ["ckb-contract"] }
ckb-types = "*"
