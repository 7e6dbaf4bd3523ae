[package]
name = "delegant"
version = "0.1.0"
edition = "2021"
publish = false

[dependencies]
uuid = { version = "*", features = ["v4"] }
serde = { version = "*", features = ["derive"] }
serde_json = "*"
reqwest = { version = "*", default-features = false, features = ["json", "rustls-tls"] }
tokio = { version = "*", features = ["rt-multi-thread", "macros", "time", "process", "sync", "io-util"] }
tokio-util = "*"
chrono = { version = "*", default-features = false, features = ["clock"] }
rand = "*"
base64 = "*"
image = { version = "*", default-features = false, features = ["jpeg"] }
enigo = "*"
arboard = "*"
