[package]
name = "rightkeys"
version = "0.1.0"
edition = "2021"
publish = false

[dependencies]
ab_glyph = "=0.2.32"
anyhow = "=1.0.104"
atspi = { version = "=0.19.0", features = ["proxies", "connection", "tokio"], default-features = false }
clap = { version = "=4.6.7", features = ["derive"] }
env_logger = "=0.11.11"
evdev = "=0.13.2"
gtk = "=0.18.2"
kdl = "=6.7.1"
log = "=0.4.35"
png = "=0.18.1"
regex = "=1.13.1"
shell-words = "=1.1.1"
tokio = { version = "=1.54.1", features = ["rt", "time", "net"] }
tray-icon = "=0.26.1"
windows = { version = "=0.58.0", features = ["Win32_Foundation", "Win32_Graphics_Dwm", "Win32_Graphics_Gdi", "Win32_System_Com", "Win32_System_Diagnostics_ToolHelp", "Win32_System_LibraryLoader", "Win32_System_Threading", "Win32_UI_Accessibility", "Win32_UI_HiDpi", "Win32_UI_Input_KeyboardAndMouse", "Win32_UI_Shell", "Win32_UI_WindowsAndMessaging"] }
winvd = "=0.0.49"
x11rb = { version = "=0.13.2", features = ["randr"] }
zbus = { version = "=3.15.2", default-features = false, features = ["tokio"] }
