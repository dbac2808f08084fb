[package]
name = "frc_scout"
version = "0.1.0"
edition = "2021"
publish = false

[dependencies]
serde = { version = "=1.0.229", features = ["derive"] }
serde_json = "=1.0.154"
reqwest = { version = "=0.11.27", default-features = false, features = ["blocking", "json", "rustls-tls"] }
tokio = { version = "=1.54.1", features = ["macros", "rt-multi-thread", "sync"] }
redis = "=0.23.5"
rayon = "=1.12.0"
log = "=0.4.35"
env_logger = "=0.10.2"
once_cell = "=1.21.4"
dotenv = "=0.15.0"
futures = "=0.3.34"
plr = "=0.2.0"
sentry = { version = "=0.31.8", default-features = false, features = ["backtrace", "contexts", "panic", "reqwest", "rustls"] }
