[package]
name = "opencast"
version = "0.1.0"
edition = "2021"
publish = false

[dependencies]
serde = { version = "1", features = ["derive"] }
serde_json = "1"
ignore = "0.4"
meval = "0.2"
directories = "*"
open = "*"
eframe = { version = "*", default-features = false, features = ["default_fonts", "glow", "x11"] }
raw-window-handle = "0.6"
window-vibrancy = "*"
windows-sys = { version = "*", features = ["Win32_Foundation", "Win32_Graphics_Gdi", "Win32_System_Com", "Win32_System_LibraryLoader", "Win32_System_Threading", "Win32_UI_Input_KeyboardAndMouse", "Win32_UI_Shell", "Win32_UI_WindowsAndMessaging"] }
rfd = { version = "*", default-features = false }
