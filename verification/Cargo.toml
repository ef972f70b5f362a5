[package]
name = "meatshell"
version = "0.1.0"
edition = "2021"
publish = false

[dependencies]
anyhow = "1"
russh = "*"
slint = { version = "1", default-features = false, features = ["std", "compat-1-2"] }
tokio = { version = "1", features = ["rt", "sync", "time", "fs", "io-util", "macros"] }
tracing = "0.1"
uuid = { version = "1", features = ["v4"] }
windows = { version = "*", features = ["Win32_Foundation", "Win32_UI_Shell", "Win32_UI_WindowsAndMessaging", "Win32_System_LibraryLoader", "Win32_Graphics_Gdi"] }
