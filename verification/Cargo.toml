[package]
name = "research_harness"
version = "0.1.0"
edition = "2021"
publish = false

[dependencies]
uuid = { version = "=1.29.0", features = ["v4"] }
chrono = { version = "=0.4.45", features = ["serde"] }
pdf-extract = "=0.7.12"
serde = { version = "=1.0.229", features = ["derive"] }
serde_json = "=1.0.154"
toml = "=0.8.23"
dotenvy = "=0.15.7"
clap = { version = "=4.6.7", features = ["derive"] }
tokio = { version = "=1.54.1", features = ["macros", "rt-multi-thread"] }
async-trait = "=0.1.92"
reqwest = { version = "=0.12.28", default-features = false, features = ["json", "rustls-tls"] }
tracing-appender = "=0.2.5"
tracing-subscriber = { version = "=0.3.23", features = ["env-filter", "fmt"] }
