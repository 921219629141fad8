[package]
name = "meteorite"
version = "0.1.0"
edition = "2021"
publish = false

[dependencies]
uuid = { version = "=1.29.0", features = ["v4"] }
serde = { version = "=1.0.229", features = ["derive"] }
serde_json = "=1.0.154"
chrono = { version = "=0.4.45", default-features = false, features = ["clock", "serde", "std"] }
thiserror = "=1.0.69"
web-time = "=1.1.0"
dioxus = { version = "0.7", default-features = false, features = ["macro", "signals", "hooks", "html"] }
dioxus-primitives = "*"
