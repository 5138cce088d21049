[package]
name = "harness"
version = "0.1.0"
edition = "2021"
publish = false

[dependencies]
base64 = "=0.22.1"
chrono = "=0.4.45"
fs2 = "0.4"
futures-util = "0.3"
reqwest = { version = "=0.12.28", default-features = false, features = ["json", "rustls-tls-webpki-roots-no-provider", "stream"] }
rquickjs = "=0.14.0"
rusqlite = { version = "=0.41.1", features = ["backup", "bundled", "hooks", "limits"] }
rustix = { version = "=1.1.6", features = ["fs", "process"] }
rustls = { version = "0.23", default-features = false, features = ["ring", "std"] }
serde = { version = "1", features = ["derive"] }
serde_json = { version = "=1.0.154", features = ["raw_value"] }
sha1 = "=0.10.7"
sha2 = "=0.10.9"
tempfile = "3"
thiserror = "2"
tokio = { version = "=1.54.1", features = ["fs", "io-util", "macros", "net", "process", "rt-multi-thread", "sync", "time"] }
tokio-tungstenite = { version = "=0.30.0", features = ["rustls-tls-webpki-roots"] }
tokio-util = "0.7"
url = "=2.5.8"
uuid = { version = "=1.29.0", features = ["v4"] }
zeroize = "1"
zstd = "=0.13.4"
