[package]
name = "deskemy"
version = "0.1.0"
edition = "2021"
publish = false

[dependencies]
blake3 = "*"
rusqlite = { version = "*", features = ["bundled"] }
serde = { version = "*", features = ["derive"] }
serde_json = "*"
uuid = { version = "*", features = ["v7"] }
walkdir = "*"
zip = { version = "*", default-features = false, features = ["deflate"] }
thiserror = "*"
base64 = "*"
tracing = "*"
libloading = "*"
notify-debouncer-mini = "*"
