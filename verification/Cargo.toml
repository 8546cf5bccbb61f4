[package]
name = "acb"
version = "0.1.0"
edition = "2021"
publish = false

[dependencies]
rust_decimal = "1"
time = { version = "0.3", features = ["parsing", "formatting", "macros", "local-offset"] }
regex = "1"
csv = "1"
chrono = "0.4"
lazy_static = "1"
rawzip = "*"
tracing = "0.1"
tracing-subscriber = { version = "0.3", features = ["env-filter", "time", "local-time"] }
