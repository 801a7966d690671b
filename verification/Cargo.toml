[package]
name = "file_explorer"
version = "0.1.0"
edition = "2021"
publish = false

[dependencies]
windows = { version = "=0.48.0", features = ["Win32_Foundation", "Win32_Storage_FileSystem", "Win32_System_WindowsProgramming"] }
