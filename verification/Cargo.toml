[package]
name = "glide_core"
version = "0.1.0"
edition = "2021"
publish = false

[dependencies]
redact = { version = "*", features = ["serde"] }
serde = { version = "1", features = ["derive"] }
serde_with = "3"
thiserror = "2"
tokio = { version = "1", features = ["macros", "sync"] }
tracing = "0.1"
objc2 = "0.6"
objc2-core-foundation = "0.3"
objc2-foundation = "0.3"
objc2-app-kit = "0.3"
accessibility = "*"
accessibility-sys = "*"
