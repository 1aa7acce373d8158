[package]
name = "traffic_sim"
version = "0.1.0"
edition = "2021"
publish = false

[dependencies]
rand = "0.6"
rand_xorshift = "0.1"
serde = { version = "1", features = ["derive"] }
serde_json = "1"
rayon = "1"
dimensioned = "*"
