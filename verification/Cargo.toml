[package]
name = "wavekat-sip"
version = "0.1.0"
edition = "2021"
publish = false

[dependencies]
hickory-resolver = "0.25"
rsip = "0.4"
rustls = { version = "0.23", default-features = false, features = ["ring", "std", "tls12"] }
rustls-platform-verifier = "0.6"
serde = { version = "1", features = ["derive"] }
sha2 = "0.10"
thiserror = "2"
tokio = { version = "1", features = ["io-util", "macros", "net", "rt-multi-thread", "sync", "time"] }
tokio-rustls = { version = "0.26", default-features = false, features = ["ring", "tls12"] }
tokio-util = "0.7"
tracing = "0.1"

[dev-dependencies]
rcgen = "0.14"
