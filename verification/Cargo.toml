[package]
name = "chess_engine"
version = "0.1.0"
edition = "2021"
publish = false

[dependencies]
rand = "0.8"
crossterm = "0.25"
serde = { version = "1", features = ["derive"] }
serde_json = "1"
parking_lot = "0.12"
