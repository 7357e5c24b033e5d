[package]
name = "docker_exporter"
version = "0.1.0"
edition = "2021"
publish = false

[dependencies]
chrono = "0.4"
ctrlc = "3"
futures = "0.3"
hyper = { version = "0.14", features = ["client", "http1"] }
hyperlocal = "0.8"
log = "0.4"
once_cell = "1"
prometheus = "0.13"
serde = { version = "1", features = ["derive"] }
serde_json = "1"
simplelog = "0.12"
tiny_http = "0.12"
tokio = { version = "1", features = ["rt-multi-thread", "macros", "time"] }
