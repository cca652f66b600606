[package]
name = "ndap"
version = "0.1.0"
edition = "2021"
publish = false

[dependencies]
yara-x = { version = "=1.22.1", default-features = false, features = ["constant-folding", "default-modules", "exact-atoms", "fast-regexp"] }
pcap = "=2.5.0"
axum = "=0.8.9"
tokio = { version = "=1.54.1", features = ["rt-multi-thread", "net", "macros"] }
tower-http = { version = "=0.7.1", features = ["fs"] }
serde = { version = "=1.0.229", features = ["derive"] }
