[package]
name = "rust_web_demo"
version = "0.1.0"
edition = "2021"
publish = false

[dependencies]
regex = "=1.13.1"
markup = "=0.15.0"
rocket = "=0.5.2"
rocket_sync_db_pools = { version = "=0.1.0", features = ["diesel_sqlite_pool"] }
diesel = { version = "=2.3.14", features = ["sqlite"] }
diesel_migrations = "=2.3.2"
libsqlite3-sys = { version = "=0.38.2", features = ["bundled"] }
rust-embed = { version = "=8.13.0", features = ["interpolate-folder-path"] }
serde = { version = "=1.0.229", features = ["derive"] }
serde_json = "=1.0.154"
fake = "=2.10.0"
nanoid = "=0.4.0"
