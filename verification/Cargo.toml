[package]
name = "otelstore"
version = "0.1.0"
edition = "2021"
publish = false

[dependencies]
uuid = { version = "*", features = ["v4"] }
axum = "*"
tokio = { version = "*", features = ["rt-multi-thread", "macros", "net"] }
sqlx = { version = "*", default-features = false, features = ["runtime-tokio", "postgres", "time"] }
serde = { version = "*", features = ["derive"] }
serde_json = "*"
prost = "*"
opentelemetry-proto = { version = "*", features = ["gen-tonic-messages", "trace", "logs"] }
time = { version = "*", features = ["formatting", "serde-well-known"] }
tower-http = { version = "*", features = ["cors"] }
dotenvy = "*"
