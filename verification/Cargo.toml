[package]
name = "proddle"
version = "0.1.0"
edition = "2021"

[dependencies]
bincode = "=1.3.3"
bson = "=0.12.3"
bytes = "=1.12.1"
chan = "=0.1.23"
clap = "=2.34.0"
curl = "=0.4.51"
mongodb = "=0.3.10"
rand = "=0.4.6"
serde = { version = "=1.0.229", features = ["derive"] }
slog = "=2.8.2"
slog-scope = "=4.4.1"
slog-term = "=2.9.2"
time = "=0.1.45"
