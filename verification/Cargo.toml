[package]
name = "connector"
version = "0.1.0"
edition = "2021"
publish = false

[dependencies]
anyhow = "1"
axum = { version = "0.8", features = ["ws"] }
base64 = "0.22"
chrono = "0.4"
clap = { version = "4", features = ["derive"] }
futures = "0.3"
http = "1"
libc = "0.2"
rand = "0.9"
rmcp = { version = "*", features = ["client", "server", "transport-streamable-http-server", "transport-async-rw"] }
rusqlite = { version = "*", features = ["bundled"] }
rustls = { version = "0.23", default-features = false, features = ["ring", "std"] }
schemars = "1"
serde = { version = "1", features = ["derive"] }
serde_json = "1"
sha2 = "0.10"
subtle = "2"
thiserror = "2"
tokio = { version = "1", features = ["full"] }
tokio-tungstenite = { version = "*", default-features = false, features = ["connect", "handshake", "rustls-tls-webpki-roots"] }
tokio-util = "0.7"
tower-http = { version = "0.6", features = ["trace"] }
tracing = "0.1"
tracing-subscriber = { version = "0.3", features = ["env-filter"] }
url = "2"
