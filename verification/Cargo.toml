[package]
name = "crypto_portfolio"
version = "0.1.0"
edition = "2021"
publish = false

[dependencies]
chrono = "=0.4.45"
comfy-table = "=7.2.2"
ctrlc = "=3.5.2"
dotenv = "=0.15.0"
env_logger = { version = "=0.11.11", default-features = false }
hex = "=0.4.3"
hmac = "=0.12.1"
icu = "=2.4.0"
log = "=0.4.34"
redis = { version = "=0.23.5", default-features = false, features = ["aio", "tokio-comp"] }
reqwest = { version = "=0.12.28", default-features = false, features = ["json", "native-tls"] }
scraper = { version = "=0.20.0", default-features = false }
serde = { version = "=1.0.229", features = ["derive"] }
serde_json = "=1.0.154"
sha2 = "=0.10.9"
sqlx = { version = "=0.8.6", default-features = false, features = ["runtime-tokio", "postgres", "chrono", "derive"] }
thiserror = "=1.0.69"
tokio = { version = "=1.54.1", features = ["rt-multi-thread", "macros", "time", "signal"] }
toml = "=0.8.23"
