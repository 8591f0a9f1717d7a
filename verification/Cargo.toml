[package]
name = "pm3"
version = "0.1.0"
edition = "2021"
publish = false

[dependencies]
base64 = "0.22"
chacha20poly1305 = "0.10"
rand_core = { version = "0.6", features = ["getrandom"] }
memchr = "2"
anyhow = "1"
rand = "0.8"
tokio = { version = "1", features = ["full"] }
tokio-stream = "0.1"
axum = "0.8"
tower-http = { version = "0.6", features = ["cors", "fs"] }
rusqlite = { version = "0.32", features = ["bundled"] }
zstd = "0.13"
sysinfo = "0.30"
os_pipe = "1"
dotenvy = "0.15"
clap = { version = "4", features = ["derive"] }
crossterm = "0.28"
ratatui = "0.29"
reqwest = { version = "0.12", default-features = false, features = ["blocking"] }
tabled = "0.16"
