[package]
name = "bomby"
version = "0.1.0"
edition = "2021"
publish = false

[dependencies]
itertools = "=0.13.0"
noise = "0.9"
rand = { version = "0.8", features = ["small_rng"] }
directories = "5"
serde = { version = "1", features = ["derive"] }
serde_derive = "1"
serde_ignored = "0.1"
toml = "0.8"
