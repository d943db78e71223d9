[package]
name = "chesspresso"
version = "0.1.0"
edition = "2021"
publish = false

[dependencies]
alloy = { version = "0.3", default-features = false, features = ["std", "sol-types", "serde"] }
ansi_term = "=0.12.1"
anyhow = "1"
clap = { version = "4", features = ["derive", "env"] }
futures = "0.3"
glicko2 = "=0.3.1"
hex = "=0.4.3"
hyper = { version = "0.14", features = ["client", "http1", "tcp"] }
serde = { version = "1", features = ["derive"] }
serde_json = "1"
shakmaty = "=0.27.3"
sqlx = { version = "0.8", default-features = false, features = ["sqlite", "runtime-tokio"] }
tokio = { version = "1", features = ["macros", "rt-multi-thread", "sync", "time"] }
tracing = "0.1"
tracing-subscriber = { version = "0.3", features = ["env-filter"] }
url = "2"
