[package]
name = "kite"
version = "0.1.0"
edition = "2021"
publish = false

[dependencies]
log = "0.4"
mavlink = { version = "0.13", default-features = false, features = ["std", "ardupilotmega"] }
reqwest = { version = "0.12", default-features = false, features = ["json"] }
serde_json = "1"
tauri = { version = "2", default-features = false }
tokio = { version = "1", features = ["time"] }
