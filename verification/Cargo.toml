[package]
name = "macrocosim"
version = "0.1.0"
edition = "2021"
publish = false

[dependencies]
chrono = { version = "=0.4.45", features = ["serde"] }
log = "=0.4.35"
parking_lot = "=0.12.5"
rand = { version = "=0.9.5", features = ["small_rng"] }
serde = { version = "=1.0.229", features = ["derive"] }
serde_json = "=1.0.154"
tokio = { version = "=1.54.1", features = ["rt", "rt-multi-thread", "time", "sync", "macros"] }
tulisp = { version = "=0.32.0", features = ["sync"] }
