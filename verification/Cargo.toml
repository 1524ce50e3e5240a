[package]
name = "sensor_relay"
version = "0.1.0"
edition = "2021"
publish = false

[dependencies]
chrono = "=0.4.45"
clap = { version = "=4.6.7", features = ["derive"] }
serde = { version = "1", features = ["derive"] }
serde_json = "1"
serialport = { version = "=4.10.1", default-features = false }
reqwest = { version = "=0.12.28", default-features = false, features = ["blocking", "json"] }
axum = "=0.8.9"
axum-auth = "=0.8.1"
tokio = { version = "=1.53.2", features = ["rt-multi-thread", "macros", "net"] }
tower = "=0.5.3"
sqlx = { version = "=0.8.6", default-features = false, features = ["postgres", "runtime-tokio"] }
envy = "=0.4.2"
