[package]
name = "mikanplus"
version = "0.1.0"
edition = "2021"
publish = false

[dependencies]
scraper = "0.22"
sha2 = "0.10"
serde = { version = "1", features = ["derive"] }
serde_json = "1"
ureq = "2"
chrono = "0.4"
filetime = "0.2"
thiserror = "2"
anyhow = "1"
tokio = { version = "1", features = ["rt-multi-thread", "sync", "time", "macros"] }
librqbit = "8"
