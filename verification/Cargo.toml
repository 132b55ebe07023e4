[package]
name = "warroom-scribe"
version = "0.1.0"
edition = "2021"
publish = false

[dependencies]
async-trait = "0.1"
chrono = "=0.4.45"
chrono-tz = "=0.10.4"
dotenvy = "0.15"
poise = "=0.6.2"
reqwest = { version = "0.12", default-features = false, features = ["json", "rustls-tls"] }
rustls = { version = "0.23", default-features = false, features = ["ring", "std"] }
serde = { version = "1", features = ["derive"] }
serde_json = "1"
songbird = { version = "=0.5.0", features = ["receive"] }
tokio = { version = "1", features = ["macros", "rt-multi-thread", "sync", "time"] }
tracing = "0.1"
tracing-subscriber = { version = "0.3", features = ["env-filter"] }
whisper-rs = { version = "=0.13.2", features = ["whisper-cpp-tracing"] }
