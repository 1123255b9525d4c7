[package]
name = "batcave"
version = "0.1.0"
edition = "2021"
publish = false

[dependencies]
serde_json = "1"
base64 = "0.22"
image = { version = "0.25", default-features = false, features = ["png"] }
sysinfo = "0.33"
ureq = "2"
tiny_http = "0.12"
rustfft = "6"
arboard = "3"
rusqlite = { version = "0.37", features = ["bundled"] }
global-hotkey = "0.6"
