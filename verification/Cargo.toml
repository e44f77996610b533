[package]
name = "brief_measure"
version = "0.1.0"
edition = "2021"
publish = false

[dependencies]
hex = "0.4"
uuid = "1"
serde = { version = "1", features = ["derive"] }
axum = "0.7"
tokio = { version = "1", features = ["macros", "rt-multi-thread", "net"] }
sqlx = { version = "0.8", default-features = false, features = ["postgres", "runtime-tokio", "uuid", "migrate"] }
