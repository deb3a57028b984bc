[package]
name = "visit_once"
version = "0.1.0"
edition = "2021"
publish = false

[dependencies]
sha256 = { version = "*", default-features = false }
chrono = "*"
axum = "*"
axum-client-ip = "*"
tokio = { version = "*", features = ["rt-multi-thread", "macros", "net"] }
sqlx = { version = "*", default-features = false, features = ["sqlite", "runtime-tokio", "migrate"] }
tower-http = { version = "*", features = ["fs"] }
askama = "*"
