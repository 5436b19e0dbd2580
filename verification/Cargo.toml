[package]
name = "kraft_lib"
version = "0.1.0"
edition = "2021"
publish = false

[dependencies]
bus = "2"
config = "0.14"
crossbeam-channel = "0.5"
crossbeam-queue = "0.3"
crossbeam-utils = "0.8"
csv = "1"
env_logger = "0.11"
lazy_static = "1"
log = "0.4"
minstant = "0.1"
opentelemetry = "0.22"
opentelemetry-zipkin = { version = "0.20", default-features = false }
opentelemetry_sdk = { version = "0.22", features = ["rt-tokio"] }
prometheus = "0.13"
rand = "0.8"
serde = { version = "1", features = ["derive"] }
tokio = { version = "1", features = ["macros", "rt-multi-thread", "sync", "time"] }
tracing = "0.1"
tracing-opentelemetry = "0.23"
tracing-subscriber = "0.3"
