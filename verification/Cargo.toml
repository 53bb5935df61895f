[package]
name = "dns-protocol-bench"
version = "0.1.0"
edition = "2021"
publish = false

[dependencies]
quinn = { version = "0.11", default-features = false, features = ["runtime-tokio", "rustls-ring"] }
rand = "0.9"
reqwest = { version = "0.12", default-features = false, features = ["rustls-tls-webpki-roots", "http2", "http3"] }
rustls = { version = "0.23", default-features = false, features = ["ring", "std", "tls12", "logging"] }
tokio = { version = "1", features = ["rt-multi-thread", "macros", "net", "time", "io-util"] }
tokio-rustls = { version = "0.26", default-features = false, features = ["ring", "tls12"] }
webpki-roots = "1"
