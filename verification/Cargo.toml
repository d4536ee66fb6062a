[package]
name = "gpui_docs"
version = "0.1.0"
edition = "2021"
publish = false

[dependencies]
regex = "=1.13.1"
serde = { version = "=1.0.229", features = ["derive"] }
serde_json = "=1.0.154"
syn = { version = "=2.0.119", features = ["full", "visit", "extra-traits"] }
quote = "=1.0.47"
proc-macro2 = { version = "=1.0.107", features = ["span-locations"] }
walkdir = "=2.5.0"
anyhow = "=1.0.104"
rmcp = { version = "=3.8.0", features = ["server", "transport-io", "macros"] }
schemars = "=1.2.3"
tokio = { version = "=1.54.1", features = ["macros", "rt-multi-thread", "io-std"] }
tracing-subscriber = { version = "=0.3.23", features = ["env-filter", "fmt"] }
