[package]
name = "hsl-telepresence-robot"
version = "0.1.0"
edition = "2021"
publish = false

[dependencies]
anyhow = "=1.0.104"
clasp-client = "=4.5.0"
embedded-hal = "=1.0.0"
linux-embedded-hal = "=0.4.1"
pwm-pca9685 = "=1.0.0"
serde = { version = "=1.0.229", features = ["derive"] }
serde_json = "=1.0.154"
tokio = { version = "=1.54.1", features = ["full"] }
tracing = "=0.1.44"
tracing-subscriber = { version = "=0.3.23", features = ["env-filter", "fmt"] }
