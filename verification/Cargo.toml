[package]
name = "video_cut"
version = "0.1.0"
edition = "2021"
publish = false

[dependencies]
serde = { version = "1", features = ["derive"] }
serde_json = "1"
thiserror = "*"
anyhow = "1"
tokio = { version = "1", features = ["full"] }
tokio-util = "0.7"
dashmap = "6"
regex = "1"
tracing = "0.1"
tracing-appender = "0.2"
tracing-subscriber = { version = "0.3", features = ["env-filter", "json"] }
windows-sys = { version = "*", features = ["Win32_Foundation", "Win32_Storage_FileSystem", "Win32_System_JobObjects", "Win32_System_IO", "Win32_Security", "Win32_System_Threading"] }
