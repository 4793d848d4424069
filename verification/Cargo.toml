[package]
name = "diaryx_core"
version = "0.1.0"
edition = "2021"
publish = false

[dependencies]
chrono = "=0.4.45"
serde = { version = "=1.0.229", features = ["derive"] }
serde_json = "=1.0.154"
serde_yaml = "=0.9.34"
indexmap = "=2.14.2"
sha2 = "=0.11.1"
fig = "=7.0.0"
thiserror = "=2.0.21"
futures-lite = "=2.6.1"
mailparse = "=0.18.0"
html-to-markdown-rs = "=3.19.1"
zip = { version = "=9.2.2", default-features = false, features = ["deflate"] }
mbox-reader = "=0.2.0"
fig-yaml = { version = "*", features = ["fig"] }
