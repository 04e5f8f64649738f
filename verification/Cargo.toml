[package]
name = "azure_sapi"
version = "0.1.0"
edition = "2021"
publish = false

[dependencies]
anyhow = "=1.0.104"
winreg = "=0.55.0"

[dependencies.windows]
version = "=0.61.3"
features = ["Win32_Foundation", "Win32_Media_Audio", "Win32_Media_Speech", "Win32_System_Com", "Win32_Networking_WinHttp"]
