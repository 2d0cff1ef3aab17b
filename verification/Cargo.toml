[package]
name = "inzone-buds-battery-tray"
version = "0.1.0"
edition = "2021"
publish = false

[dependencies]
anyhow = "1.0.104"
hidapi = "2.6.7"
serde = { version = "1.0.229", features = ["derive"] }
serde_json = "1.0.154"
tracing = "0.1.44"
tracing-subscriber = "0.3.23"
tray-icon = "0.21.3"
winit = "0.30.13"
windows-sys = { version = "0.59.0", features = ["Win32_Foundation", "Win32_Security", "Win32_System_Threading"] }
winreg = "0.55.0"
