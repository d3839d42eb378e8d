[package]
name = "ormada"
version = "0.1.0"
edition = "2021"
publish = false

[dependencies]
sha2 = "=0.10.9"
hex = "=0.4.3"
syn = { version = "=2.0.119", features = ["full"] }
quote = "=1.0.47"
proc-macro2 = "=1.0.107"
heck = "=0.5.0"
Inflector = "=0.11.4"
sqlformat = "=0.3.5"
chrono = "=0.4.45"
colored = "=2.2.0"
anyhow = "=1.0.104"
walkdir = "=2.5.0"
clap = { version = "=4.6.7", features = ["derive"] }
serde = { version = "=1.0.229", features = ["derive"] }
serde_json = "=1.0.154"
sqlx = { version = "=0.8.6", default-features = false, features = ["runtime-tokio", "postgres", "chrono"] }
tokio = { version = "=1.54.1", features = ["macros", "rt-multi-thread"] }
