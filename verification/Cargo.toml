[package]
name = "tsupasswd"
version = "0.1.0"
edition = "2021"
publish = false

[dependencies]
base64 = "0.22"
chacha20poly1305 = "0.10"
chrono = "0.4"
csv = "1"
encoding_rs = "0.8"
hkdf = "0.12"
rand = "0.8"
rusqlite = { version = "0.31", features = ["bundled"] }
rustls = { version = "0.23", default-features = false, features = ["ring", "std"] }
serde = { version = "1", features = ["derive"] }
serde_json = "1"
sha2 = "0.10"
tokio = { version = "1", features = ["macros", "rt-multi-thread"] }
uuid = { version = "1", features = ["v4"] }
windows-sys = { version = "0.52", features = ["Win32_Foundation", "Win32_System_Console"] }
