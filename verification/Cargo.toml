[package]
name = "plotka"
version = "0.1.0"
edition = "2021"
publish = false

[dependencies]
rand = { version = "=0.8.8", features = ["small_rng"] }
serde = { version = "=1.0.229", features = ["derive"] }
serde_json = "=1.0.151"
csv = "=1.4.0"
clap = { version = "=4.6.7", features = ["derive"] }
actix = "=0.13.5"
actix-web = "=4.15.0"
actix-web-actors = "=4.3.1"
actix-files = "0.6"
