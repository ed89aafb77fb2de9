[package]
name = "shepherd"
version = "0.1.0"
edition = "2021"
publish = false

[dependencies]
anyhow = "*"
axum = { version = "*", default-features = false, features = ["tokio", "http1", "json"] }
bytes = "*"
chrono = { version = "*", default-features = false, features = ["clock"] }
futures = "*"
futures-util = { version = "*", default-features = false, features = ["sink", "std"] }
hopper = "*"
rumqttc = { version = "*", default-features = false }
serde = { version = "*", features = ["derive"] }
serde_json = "*"
tokio = { version = "*", features = ["full"] }
tokio-gpiod = "*"
tokio-tungstenite = { version = "*", default-features = false, features = ["handshake"] }
toml = "*"
tower = { version = "*", default-features = false, features = ["util"] }
tower-http = { version = "*", default-features = false, features = ["fs", "trace"] }
tracing = "*"
tracing-subscriber = "*"
