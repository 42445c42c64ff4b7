[package]
name = "telemt"
version = "0.1.0"
edition = "2021"
publish = false

[dependencies]
bytes = "1"
chrono = "0.4"
http-body-util = "0.1"
hyper = { version = "1", features = ["client", "http1"] }
hyper-util = { version = "0.1", features = ["tokio"] }
rand = "0.10"
reqwest = { version = "0.12", default-features = false, features = ["rustls-tls-webpki-roots-no-provider"] }
rustls = { version = "0.23", default-features = false, features = ["std", "tls12"] }
rustls-rustcrypto = "0.0.2-alpha"
tokio = { version = "1", features = ["net", "time", "io-util", "rt", "sync", "macros"] }
tokio-rustls = { version = "0.26", default-features = false, features = ["tls12"] }
tracing = "0.1"
url = "2"
webpki-roots = "1"
