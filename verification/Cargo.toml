[package]
name = "architect"
version = "0.1.0"
edition = "2021"
publish = false

[dependencies]
chrono = "0.4"
percent-encoding = "2"
loro = "1"
uuid = { version = "1", features = ["v4"] }
png = "0.17"
qrcodegen = "1"
nucleo-matcher = "0.3"
axum = "0.8"
dioxus = { version = "0.7", default-features = false, features = ["macro", "html", "signals", "hooks"] }
dioxus-ssr = "0.7"
clap = { version = "4", features = ["derive"] }
serde = { version = "1", features = ["derive"] }
serde_json = "1"
async-trait = "0.1"
thiserror = "2"
tracing = "0.1"
tracing-subscriber = { version = "0.3", features = ["env-filter", "fmt"] }
sentry = { version = "*", default-features = false, features = ["backtrace", "contexts", "panic"] }
sentry-tracing = "*"
opentelemetry = "*"
opentelemetry_sdk = "*"
opentelemetry-otlp = { version = "*", default-features = false, features = ["trace", "metrics", "logs", "http-proto"] }
opentelemetry-appender-tracing = "*"
tracing-opentelemetry = "*"
