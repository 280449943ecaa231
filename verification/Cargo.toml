[package]
name = "kite_sql"
version = "0.1.0"
edition = "2021"
publish = false

[dependencies]
itertools = "0.12"
clap = { version = "4", features = ["derive"] }
rand = "0.8"
thiserror = "1"
serde = { version = "1", features = ["derive"] }
futures = "0.3"
sqlparser = "0.34"
