[package]
name = "nixchess"
version = "0.1.0"
edition = "2021"
publish = false

[dependencies]
shakmaty = "=0.27.3"
pgn-reader = "=0.26.0"
sqlx = { version = "=0.7.4", default-features = false, features = ["runtime-tokio", "postgres"] }
tokio = { version = "=1.53.2", default-features = false, features = ["rt-multi-thread", "macros"] }
futures-util = "=0.3.34"
clap = { version = "=4.5.61", features = ["derive"] }
