[package]
name = "recognizr"
version = "0.1.0"
edition = "2021"
publish = false

[dependencies]
image = "*"
anyhow = "*"
axum = { version = "*", features = ["multipart"] }
tokio = { version = "*", features = ["rt-multi-thread", "macros", "net"] }
serde = { version = "*", features = ["derive"] }
serde_json = "*"
thiserror = "*"
tracing = "*"
tracing-subscriber = { version = "*", features = ["env-filter"] }
tower-http = { version = "*", features = ["cors"] }
config = "*"
ort = { version = "=2.0.0-rc.13", default-features = false, features = ["std", "ndarray", "tracing", "cuda", "api-27"] }
ndarray = "*"
imageproc = "*"
ab_glyph = "*"
