[package]
name = "discors"
version = "0.1.0"
edition = "2021"
publish = false

[dependencies]
eetf = "=0.8.0"
inflate = "=0.4.5"
url = "=2.5.8"
num-bigint = "=0.4.8"
num-traits = "=0.2.19"
websocket = { version = "=0.26.5", default-features = false, features = ["sync", "sync-ssl"] }
reqwest = { version = "=0.11.27", features = ["json", "blocking"] }
serde_json = "=1.0.154"
