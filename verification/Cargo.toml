[package]
name = "simple_forwarder"
version = "0.1.0"
edition = "2021"
publish = false

[dependencies]
anyhow = "1"
arc-swap = "1"
bytes = "1"
chrono = "0.4"
env_logger = "0.11"
ferrisetw = "1"
http = "1"
ipnet = "2"
libc = "0.2"
libui = "*"
libui-ffi = "*"
log = "0.4"
netstat2 = "*"
notify = "*"
parking_lot = "0.12"
serde = { version = "1", features = ["derive"] }
serde_yaml = "0.9"
single-instance = "0.3"
tokio = { version = "1", features = ["full"] }
tray-icon = "*"
wildmatch = "2"
windows = { version = "0.58", features = ["Win32_Foundation", "Win32_Graphics_Gdi", "Win32_Security", "Win32_Storage_FileSystem", "Win32_System_Console", "Win32_System_Diagnostics_Etw", "Win32_System_LibraryLoader", "Win32_System_ProcessStatus", "Win32_System_Registry", "Win32_System_Threading", "Win32_System_Time", "Win32_UI_Controls", "Win32_UI_WindowsAndMessaging"] }
