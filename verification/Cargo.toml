[package]
name = "companion"
version = "0.1.0"
edition = "2021"
publish = false

[dependencies]
dirs = "5"
serde = { version = "1", features = ["derive"] }
serde_json = "1"
hound = "3"
clap = { version = "4", features = ["derive"] }
crossterm = "0.28"
ratatui = "0.29"
reqwest = { version = "0.12", default-features = false, features = ["json", "stream", "multipart", "rustls-tls"] }
tokio = { version = "1", features = ["full"] }
futures-util = "0.3"
log = "0.4"
env_logger = "0.11"
rdev = "0.5"
crossbeam = "0.8"
base64 = "0.22"
thiserror = "2"
async-trait = "0.1"
zip = { version = "2", default-features = false, features = ["deflate"] }
