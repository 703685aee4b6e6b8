[package]
name = "zapx"
version = "0.1.0"
edition = "2021"
publish = false

[dependencies]
regex = "=1.13.1"
serde = { version = "=1.0.229", features = ["derive"] }
serde_json = "=1.0.154"
chrono = { version = "=0.4.45", default-features = false, features = ["clock", "std"] }
sha2 = "=0.10.9"
vte = "0.13"
uuid = { version = "1", features = ["v4"] }
gethostname = "0.4"
