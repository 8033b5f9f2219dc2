[package]
name = "chess_db"
version = "0.1.0"
edition = "2021"
publish = false

[dependencies]
anyhow = "1"
chrono = "0.4"
clap = { version = "4", features = ["derive"] }
csv = "1"
dirs = "*"
duckdb = "1.10503"
dunce = "1"
futures-util = "0.3"
getrandom = "0.3"
indicatif = "*"
pgn-reader = "0.28"
rayon = "1"
regex = "1"
reqwest = { version = "0.12", default-features = false, features = ["json", "blocking", "stream"] }
serde = { version = "1", features = ["derive"] }
serde_json = "1"
sevenz-rust2 = "*"
shakmaty = "0.29"
tokio = { version = "1", features = ["full"] }
tokio-stream = "0.1"
tokio-util = { version = "0.7", features = ["io"] }
zip = "*"
zstd = "*"
