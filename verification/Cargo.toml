[package]
name = "barnes_hut"
version = "0.1.0"
edition = "2021"
publish = false

[dependencies]
rayon = "1"
serde = { version = "1", features = ["derive"] }
csv = "1"
log = "0.4"
env_logger = "0.11"
rand = "0.8"
rand_distr = "0.4"
