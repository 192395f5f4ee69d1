[package]
name = "query_tables"
version = "0.1.0"
edition = "2021"
publish = false

[dependencies]
regex = "1"
config = { version = "0.13", default-features = false, features = ["toml"] }
serde = { version = "1", features = ["derive"] }
env_logger = "0.10"
log = "0.4"
crossterm = "0.25"
tui = "0.19"

[dev-dependencies]
itertools = "0.10"
