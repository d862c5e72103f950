[package]
name = "cnc_remedy"
version = "0.1.0"
edition = "2021"
publish = false

[dependencies]
encoding_rs = "0.8"
unicode-segmentation = "1"
chrono = "0.4"
crossterm = "0.28"
clearscreen = "3"
is_elevated = "0.1"
serde = { version = "1", features = ["derive"] }
toml = "0.8"
thiserror = "1"
registry = "1"
windows-sys = { version = "0.59", features = ["Win32_Foundation", "Win32_System_DataExchange", "Win32_System_Memory", "Win32_UI_WindowsAndMessaging"] }
