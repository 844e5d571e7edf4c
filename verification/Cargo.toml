[package]
name = "mailctl"
version = "0.1.0"
edition = "2021"
publish = false

[dependencies]
anstream = "=1.0.0"
anstyle = "=1.0.14"
base64 = "=0.22.1"
chrono = { version = "=0.4.45", default-features = false, features = ["std"] }
clap = { version = "=4.6.7", features = ["derive"] }
directories = "=6.0.0"
encoding_rs = "=0.8.44"
futures-util = "=0.3.34"
html2text = "=0.17.1"
io-imap = { version = "=0.6.0", default-features = false }
keyring-core = "=1.0.1"
mail-builder = "=2.0.1"
mail-parser = "=0.11.8"
rmcp = { version = "=3.8.0", features = ["server", "transport-io"] }
rusqlite = { version = "=0.41.1", features = ["bundled"] }
rustix = { version = "=1.1.6", features = ["fs", "net", "process"] }
rustls-native-certs = "=0.8.5"
schemars = "=1.2.3"
serde = { version = "=1.0.229", features = ["derive"] }
serde_json = "=1.0.154"
sha2 = "=0.11.1"
tokio = { version = "=1.53.1", features = ["full"] }
tokio-rustls = { version = "=0.26.5", default-features = false, features = ["ring", "tls12"] }
tokio-util = { version = "=0.7.20", features = ["codec"] }
toml = "=1.1.8+spec-1.1.0"
tracing = "=0.1.44"
tracing-subscriber = { version = "=0.3.23", features = ["json"] }
uuid = { version = "=1.29.0", features = ["v4"] }
zeroize = "=1.9.1"
