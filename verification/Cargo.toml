[package]
name = "java-service-steward"
version = "0.3.2"
edition = "2021"
publish = false

[dependencies]
chrono = { version = "0.4", default-features = false, features = ["clock"] }
crossbeam-channel = "0.5"
ctrlc = "3"
encoding_rs = "0.8"
getrandom = "0.3"
thiserror = "2"
windows-service = "0.8"
windows-sys = { version = "0.60", features = ["Win32_Foundation", "Win32_System_Console", "Win32_System_EventLog", "Win32_System_JobObjects", "Win32_System_Threading", "Win32_UI_WindowsAndMessaging", "Win32_Storage_FileSystem", "Win32_Security"] }
