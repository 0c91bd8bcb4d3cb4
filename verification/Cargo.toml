[package]
name = "buildermon"
version = "0.1.0"
edition = "2021"
publish = false

[dependencies]
ansi-to-html = "0.2"
sysinfo = "0.32"
serde = { version = "1", features = ["derive"] }
serde_json = "1"
tokio = { version = "1", features = ["rt-multi-thread", "macros", "sync", "time"] }
