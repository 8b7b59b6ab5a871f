[package]
name = "whatchanged"
version = "0.1.0"
edition = "2021"
publish = false

[dependencies]
aes-gcm = "=0.10.3"
base64 = "=0.22.1"
rand = "=0.8.8"
hmac = "=0.12.1"
sha2 = "=0.10.9"
hex = "=0.4.3"
glob = "=0.3.4"
zstd = "=0.13.4"
urlencoding = "=2.1.3"
chrono = "=0.4.45"
url = "=2.5.8"
serde = { version = "=1.0.229", features = ["derive"] }
serde_json = "=1.0.154"
rusqlite = { version = "=0.31.0", features = ["bundled"] }
walkdir = "=2.5.0"
dirs = "=5.0.1"
log = "=0.4.35"
reqwest = { version = "=0.12.28", default-features = false }
tokio = { version = "=1.54.1", features = ["rt-multi-thread", "macros", "time", "sync"] }
winreg = "0.52"
