[package]
name = "mysyncfiles"
version = "0.3.2"
edition = "2021"
publish = false

[dependencies]
anyhow = "1"
axum = "0.8"
base64 = "0.22"
clap = { version = "4", features = ["derive"] }
ed25519-dalek = "2"
fs2 = "0.4"
futures-util = "0.3"
getrandom = "0.3"
hex = "0.4"
notify = "8"
openssl = { version = "0.10", features = ["vendored"] }
reqwest = { version = "0.12", default-features = false, features = ["rustls-tls", "json", "stream"] }
rpassword = "7"
rusqlite = { version = "0.37", features = ["bundled"] }
rustix = { version = "1", features = ["fs"] }
semver = "1"
serde = { version = "1", features = ["derive"] }
serde_json = "1"
sha2 = "0.10"
tempfile = "3"
tokio = { version = "1", features = ["full"] }
tokio-util = { version = "0.7", features = ["io"] }
tss-esapi = "7"
uuid = { version = "1", features = ["v4"] }
x509-parser = "0.17"
