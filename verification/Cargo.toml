[package]
name = "winreg"
version = "0.1.0"
edition = "2021"
publish = false

[dependencies]
serde_json = "1"
windows-sys = { version = "0.52", features = ["Win32_Foundation", "Win32_System_Registry"] }
