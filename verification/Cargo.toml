[package]
name = "termsite"
version = "0.1.0"
edition = "2021"
publish = false

[dependencies]
chrono = { version = "=0.4.45", default-features = false, features = ["std", "serde"] }
russh = "=0.37.1"
russh-keys = "=0.37.1"
tokio = { version = "=1.54.1", features = ["full"] }
tokio-rusqlite = "=0.4.0"
rusqlite = { version = "=0.29.0", features = ["bundled"] }
async-trait = "=0.1.92"
ed25519-dalek = "=1.0.1"
base64 = "=0.21.7"
serde = { version = "=1.0.229", features = ["derive"] }
serde_json = "=1.0.154"
quick-xml = { version = "=0.31.0", features = ["serialize"] }
jotdown = "=0.3.2"
color-eyre = "=0.6.5"
tracing = { version = "=0.1.44", features = ["log"] }
tracing-subscriber = { version = "=0.3.23", features = ["env-filter"] }
once_cell = "=1.21.4"
futures = "=0.3.34"
rand = "=0.8.8"
