[package]
name = "dict_core"
version = "0.1.0"
edition = "2021"
publish = false

[dependencies]
axum = "*"
dotenv = "*"
env_logger = "*"
log = "*"
serde = { version = "*", features = ["derive"] }
sqlx = { version = "*", default-features = false, features = ["runtime-tokio", "tls-rustls", "mysql"] }
tokio = { version = "*", features = ["macros", "rt-multi-thread", "net"] }
tower-http = { version = "*", features = ["fs"] }
