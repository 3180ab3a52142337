[package]
name = "authcore"
version = "0.1.0"
edition = "2021"
publish = false

[dependencies]
jsonwebtoken = { version = "=11.1.0", features = ["rust_crypto"] }
validator = "=0.21.0"
bcrypt = "=0.19.3"
axum = "*"
tokio = { version = "*", features = ["rt-multi-thread", "macros", "net"] }
tower-cookies = "*"
serde = { version = "*", features = ["derive"] }
serde_json = "*"
bb8 = "*"
bb8-redis = "*"
