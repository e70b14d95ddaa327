[package]
name = "codex_kit"
version = "0.1.0"
edition = "2021"
publish = false

[dependencies]
sha2 = "=0.10.9"
uuid = { version = "=1.29.0", features = ["v4", "v7"] }
time = { version = "=0.3.55", features = ["parsing", "formatting", "macros"] }
serde = { version = "=1.0.229", features = ["derive"] }
serde_json = "=1.0.154"
anyhow = "=1.0.104"
thiserror = "=2.0.21"
clap = { version = "=4.6.7", features = ["derive"] }
tokio = { version = "=1.54.1", features = ["rt-multi-thread", "macros", "net", "signal", "time", "fs", "io-util", "sync"] }
axum = "=0.8.9"
reqwest = { version = "=0.12.28", default-features = false, features = ["json", "stream"] }
futures = "=0.3.34"
eventsource-stream = "=0.2.3"
async-stream = "=0.3.6"
bytes = "=1.12.1"
http = "=1.5.0"
libc = "=0.2.191"
url = "=2.5.8"
