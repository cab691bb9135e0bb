[package]
name = "win-keeper"
version = "0.1.0"
edition = "2021"
publish = false

[dependencies]
anyhow = "1"
chrono = "0.4"
nix = { version = "0.30", features = ["process", "signal"] }
serde = { version = "1", features = ["derive"] }
toml = "0.9"
slint = { version = "1.17", default-features = false, features = ["std", "compat-1-2"] }
windows-sys = { version = "0.61", features = ["Win32_Foundation", "Win32_Globalization", "Win32_Security", "Win32_System_JobObjects", "Win32_System_ProcessStatus", "Win32_System_Registry", "Win32_System_Threading", "Win32_UI_Shell", "Win32_UI_WindowsAndMessaging"] }
