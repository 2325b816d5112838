[package]
name = "dhancred_trading_app"
version = "0.1.0"
edition = "2021"
publish = false

[dependencies]
base64 = "0.22"
chrono = "0.4"
data-encoding = "2"
flate2 = "1"
reqwest = { version = "0.12", default-features = false, features = ["blocking", "json", "rustls-tls"] }
ring = "0.17"
rusqlite = "*"
serde = { version = "1", features = ["derive"] }
serde_json = "1"
socketio_client = "*"
tokio = { version = "1", features = ["rt-multi-thread", "macros", "sync", "time"] }
toml = "*"
tungstenite = { version = "*", features = ["rustls-tls-webpki-roots"] }
