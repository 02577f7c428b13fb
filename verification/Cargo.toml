[package]
name = "zkfl"
version = "0.1.0"
edition = "2021"
publish = false

[dependencies]
nova-snark = "0.37"
bellpepper-core = "0.4"
pasta_curves = "0.5"
rand = "0.8"
serde = { version = "1", features = ["derive"] }
serde_json = "1"
bincode = "1"
flate2 = "1"
rocket = { version = "0.5", features = ["json"] }
