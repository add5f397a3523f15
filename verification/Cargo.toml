[package]
name = "weave_patch_mcp"
version = "0.0.16"
edition = "2021"
publish = false

[dependencies]
anyhow = "1"
dirs = "*"
glob = "0.3"
regex = "1"
rmcp = { version = "*", features = ["server", "transport-io", "macros"] }
serde = { version = "1", features = ["derive"] }
serde_json = "1"
similar = "2"
tokio = { version = "1", features = ["full"] }
tracing = "0.1"
tracing-appender = "0.2"
tracing-subscriber = { version = "0.3", features = ["env-filter"] }
uuid = { version = "1", features = ["v4"] }
