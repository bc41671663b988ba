[package]
name = "whisper_proxy"
version = "1.0.0"
edition = "2021"
publish = false

[dependencies]
serde_json = "1"
ureq = "2"

[dependencies.windows-sys]
version = "0.59"
features = ["Win32_Foundation", "Win32_Security", "Win32_Storage_FileSystem"]

[dependencies.winreg]
version = "0.52"
