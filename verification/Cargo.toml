[package]
name = "khronos"
version = "0.1.0"
edition = "2021"
publish = false

[dependencies]
chrono = { version = "0.4", default-features = false, features = ["clock", "std"] }
regex = "1"
uuid = "1"
mime_guess = "2"
ics = "0.5"
jsonwebtoken = "8"
serde = { version = "1", features = ["derive"] }
axum = { version = "0.6", features = ["headers"] }
tokio = { version = "1", features = ["rt-multi-thread", "macros", "net"] }
sqlx = { version = "0.7", default-features = false, features = ["runtime-tokio", "postgres", "chrono", "uuid", "migrate"] }
tower-http = { version = "0.4", features = ["compression-br", "compression-deflate", "compression-gzip", "trace"] }
tracing = "0.1"
clap = { version = "4", features = ["derive"] }
color-eyre = "0.6"
