[package]
name = "string_combiner"
version = "0.1.0"
edition = "2021"
publish = false

[dependencies]
bio = "=3.0.0"
rayon = "=1.12.0"
rayon-cond = "=0.4.0"
serde = { version = "=1.0.229", features = ["derive"] }
serde_json = "=1.0.154"
