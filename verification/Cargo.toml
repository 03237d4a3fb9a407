[package]
name = "gptui"
version = "0.1.0"
edition = "2021"
publish = false

[dependencies]
arboard = { version = "=3.7.0", default-features = false }
chrono = "=0.4.45"
clap = { version = "=4.6.7", features = ["derive"] }
crossbeam-channel = "=0.5.17"
crossterm = "=0.27.0"
ctrlc = "=3.5.2"
daemonize = "0.5"
directories = "=5.0.1"
edit = "=0.1.5"
futures-util = "=0.3.34"
ratatui = "=0.26.3"
regex = "=1.13.1"
reqwest = { version = "=0.11.27", default-features = false, features = ["blocking", "json", "stream", "rustls-tls"] }
rusqlite = { version = "=0.31.0", features = ["bundled"] }
serde = { version = "=1.0.229", features = ["derive"] }
serde_json = "=1.0.154"
syntect = { version = "=5.3.0", default-features = false, features = ["default-fancy"] }
thiserror = "=1.0.69"
tokio = { version = "=1.54.1", features = ["rt", "time", "net"] }
toml = "=0.8.23"
uuid = { version = "=1.29.0", features = ["v4"] }
which = "=6.0.3"
