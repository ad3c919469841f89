[package]
name = "chadow_launcher"
version = "0.1.0"
edition = "2021"
publish = false

[dependencies]
uuid = { version = "=1.29.0", features = ["v3"] }
sha1 = "=0.10.7"
sha2 = "=0.10.9"
reqwest = { version = "=0.12.28", default-features = false, features = ["json", "stream", "rustls-tls"] }
tokio = { version = "=1.54.1", features = ["net", "time", "io-util", "macros", "rt-multi-thread"] }
serde = { version = "=1.0.229", features = ["derive"] }
serde_json = "=1.0.154"
zip = { version = "=2.6.1", default-features = false, features = ["deflate"] }
dirs = "=5.0.1"
open = "=5.4.5"
futures-util = "=0.3.34"
