[package]
name = "metro_services"
version = "0.1.0"
edition = "2021"
publish = false

[dependencies]
petgraph = { version = "=0.6.5", features = ["serde-1"] }
uuid = { version = "=1.29.1", features = ["v7"] }
jsonwebtoken = "=9.3.1"
ring = "=0.17.14"
time = { version = "=0.3.55", features = ["parsing", "formatting", "macros"] }
serde = { version = "=1.0.229", features = ["derive"] }
serde_json = { version = "=1.0.154", features = ["preserve_order"] }
tokio = { version = "=1.54.1", features = ["full"] }
hyper = { version = "=1.12.0", features = ["full"] }
hyper-util = { version = "=0.1.21", features = ["full"] }
http-body-util = "=0.1.5"
axum = "=0.7.9"
tower = { version = "=0.4.13", features = ["full"] }
tower-http = { version = "=0.5.2", features = ["cors", "trace"] }
reqwest = { version = "=0.12.28", default-features = false, features = ["json"] }
anyhow = "=1.0.104"
thiserror = "=1.0.69"
once_cell = "=1.21.4"
sqlx = { version = "=0.7.4", default-features = false, features = ["sqlite", "runtime-tokio"] }
