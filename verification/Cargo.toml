[package]
name = "rustdesk_rmm"
version = "0.1.0"
edition = "2021"
publish = false

[dependencies]
serde = { version = "=1.0.229", features = ["derive"] }
serde_json = "=1.0.154"
sysinfo = "=0.30.13"
tokio = { version = "=1.54.1", features = ["time", "rt", "macros"] }
winreg = "=0.52.0"
winapi = { version = "=0.3.9", features = ["winbase"] }
tauri-winrt-notification = "=0.2.1"
