[package]
name = "blog_content"
version = "0.1.0"
edition = "2021"
publish = false

[dependencies]
anyhow = "*"
axum = "*"
chrono = "*"
parking_lot = "*"
pulldown-cmark = "*"
serde = { version = "*", features = ["derive"] }
syntect = { version = "*", default-features = false, features = ["default-fancy"] }
tera = "*"
thiserror = "*"
tokio = { version = "*", features = ["full"] }
tower-http = { version = "*", features = ["fs", "compression-full", "trace"] }
tracing = "*"
tracing-subscriber = { version = "*", features = ["env-filter"] }
walkdir = "*"

[dev-dependencies]
html-escape = "*"
