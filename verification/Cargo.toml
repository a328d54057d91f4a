[package]
name = "dossier"
version = "0.1.0"
edition = "2021"
publish = false

[dependencies]
anyhow = "=1.0.104"
base64 = "=0.13.1"
blake3 = "=1.8.7"
bonsaidb = { version = "=0.5.0", features = ["server", "client", "cli", "files", "websockets", "hyper", "password-hashing", "token-authentication"] }
bonsaidb-files = "=0.1.0"
clap = { version = "=4.6.7", features = ["derive"] }
flume = "=0.11.1"
futures = "=0.3.34"
http = "=0.2.12"
hyper = { version = "=0.14.32", features = ["full"] }
mime_guess = "=2.0.5"
parking_lot = "=0.12.5"
ron = "=0.8.1"
serde = { version = "=1.0.229", features = ["derive"] }
thiserror = "=1.0.69"
tokio = { version = "=1.53.2", features = ["full"] }
