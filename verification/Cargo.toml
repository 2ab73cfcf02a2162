[package]
name = "codex_quota"
version = "0.6.1"
edition = "2021"
publish = false

[dependencies]
dirs = "*"
notify = "*"
serde = { version = "1", features = ["derive"] }
serde_json = "1"
windows-sys = { version = "0.59", features = ["Win32_Foundation", "Win32_UI_WindowsAndMessaging"] }
