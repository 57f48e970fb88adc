[package]
name = "sentry_mirror"
version = "1.0.7"
edition = "2021"
publish = false

[dependencies]
brotli = "=9.1.1"
clap = { version = "=4.6.7", features = ["derive"] }
figment = { version = "=0.10.19", features = ["yaml", "env"] }
flate2 = "=1.1.10"
futures = "=0.3.34"
http-body-util = "=0.1.5"
hyper = { version = "=1.12.0", features = ["client", "http1", "server"] }
hyper-rustls = { version = "=0.27.10", default-features = false, features = ["http1", "ring", "tls12", "webpki-roots"] }
hyper-util = { version = "=0.1.21", features = ["client", "client-legacy", "http1", "tokio"] }
metrics = "=0.24.6"
metrics-exporter-statsd = "*"
mimalloc = "=0.1.52"
regex = "=1.13.1"
sentry = { version = "=0.46.2", default-features = false, features = ["backtrace", "contexts", "logs", "panic", "reqwest", "rustls", "tracing"] }
serde = { version = "=1.0.229", features = ["derive"] }
serde_json = "=1.0.154"
tokio = { version = "=1.54.1", features = ["macros", "net", "rt-multi-thread", "time"] }
tracing = "=0.1.44"
tracing-subscriber = { version = "=0.3.23", features = ["env-filter", "json"] }
zstd = "=0.13.4"
