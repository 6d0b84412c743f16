[package]
name = "runner_manager"
version = "0.1.0"
edition = "2021"
publish = false

[dependencies]
anyhow = "=1.0.104"
chrono = "=0.4.45"
dotenv = "=0.15.0"
reqwest = { version = "=0.12.28", default-features = false, features = ["json", "rustls-tls"] }
rocket = { version = "=0.5.1", features = ["json"] }
rocket_db_pools = { version = "=0.2.0", features = ["sqlx_sqlite"] }
rocket_okapi = { version = "=0.9.0", features = ["swagger"] }
serde = { version = "=1.0.229", features = ["derive"] }
sqlx = { version = "=0.7.4", default-features = false, features = ["chrono", "migrate", "sqlite"] }
