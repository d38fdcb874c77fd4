[package]
name = "streamdeck_emotes"
version = "0.1.0"
edition = "2021"
publish = false

[dependencies]
bytes = "1"
color-eyre = "0.6"
dirs = "*"
fs_extra = "1"
futures = "0.3"
reqwest = { version = "0.12", default-features = false, features = ["rustls-tls"] }
serde = { version = "1", features = ["derive"] }
serde_json = "1"
structopt = "0.3"
tokio = { version = "1", features = ["macros", "rt-multi-thread"] }
tracing = "0.1"
tracing-subscriber = "0.3"
uuid = { version = "1", features = ["v5"] }
