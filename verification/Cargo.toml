[package]
name = "flowy_backup"
version = "0.1.0"
edition = "2021"
publish = false

[dependencies]
sha2 = "0.10"
uuid = { version = "1", features = ["v4"] }
rusqlite = { version = "0.32", features = ["bundled"] }
thiserror = "1"
tokio = { version = "1", features = ["sync", "rt"] }
once_cell = "1"
tracing = "0.1"
strum_macros = "0.25"
sysinfo = "0.30"

[dev-dependencies]
tempfile = "3"
