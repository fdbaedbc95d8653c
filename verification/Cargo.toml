[package]
name = "oxo_pingora_edge"
version = "0.1.0"
edition = "2021"
publish = false

[dependencies]
async-trait = "0.1"
bumpalo = { version = "3", features = ["collections"] }
bytes = "1"
futures-util = "0.3"
pingora = { version = "0.8", default-features = false, features = ["proxy"] }
tokio = { version = "1", features = ["net", "io-util", "rt", "sync", "time", "macros"] }
x509-parser = "0.16"
