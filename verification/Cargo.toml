[package]
name = "tymux"
version = "1.0.0"
edition = "2021"
publish = false

[dependencies]
anyhow = "1"
clap = { version = "4", features = ["derive", "env"] }
crossterm = "0.28"
dirs = "5"
hyper-util = { version = "0.1", features = ["tokio"] }
libc = "0.2"
portable-pty = "0.8"
serde = { version = "1", features = ["derive"] }
serde_json = "1"
tokio = { version = "1", features = ["full"] }
tokio-stream = { version = "0.1", features = ["net"] }
toml = "0.8"
tonic = "0.12.3"
tower = { version = "0.4", features = ["util"] }
tracing = "0.1"
uuid = { version = "1", features = ["v4", "serde"] }
vt100 = "0.16"
