[package]
name = "cardano_price_feed"
version = "0.1.0"
edition = "2021"
publish = false

[dependencies]
anyhow = "=1.0.104"
async-trait = "=0.1.92"
bech32 = "=0.9.1"
clap = { version = "=4.6.7", features = ["derive"] }
futures = "=0.3.34"
headers = "=0.3.9"
hex = "=0.4.3"
hyper = { version = "=0.14.32", features = ["server", "http1", "tcp"] }
oura = { version = "=1.9.3", default-features = false }
pallas = "=0.18.6"
sea-orm = { version = "=0.12.15", default-features = false, features = ["macros", "sqlx-postgres", "runtime-tokio-rustls"] }
serde = { version = "=1.0.229", features = ["derive"] }
serde_json = "=1.0.154"
tokio = { version = "=1.54.1", features = ["rt-multi-thread", "macros", "sync"] }
tokio-tungstenite = "=0.20.1"
toml = "=0.5.11"
tracing = "=0.1.44"
tracing-subscriber = "=0.3.23"
