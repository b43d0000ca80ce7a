[package]
name = "near_gas"
version = "0.1.0"
edition = "2021"

[dependencies]
borsh = "0.9"
serde = "1"

[dev-dependencies]
serde_json = "1"
