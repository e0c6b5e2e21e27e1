[package]
name = "lsoff_rs"
version = "0.1.3"
edition = "2021"
publish = false

[dependencies]
unicode-width = "0.2"
serde = { version = "1", features = ["derive"] }
serde_json = "1"
libc = "0.2"
rayon = "1"
crossterm = "0.28"
ratatui = "0.29"
arboard = { version = "3", default-features = false }
windows-sys = { version = "0.59", features = ["Win32_Foundation", "Win32_System_Threading", "Win32_System_ProcessStatus"] }
