[package]
name = "photosort"
version = "0.1.0"
edition = "2021"
publish = false

[dependencies]
base64 = "*"
image = "*"
ndarray = "*"
once_cell = "*"
ort = { version = "=2.0.0-rc.13", default-features = false, features = ["std", "ndarray", "load-dynamic", "coreml", "cuda", "rocm", "directml", "openvino"] }
parking_lot = "*"
reqwest = { version = "*", default-features = false, features = ["json"] }
rusqlite = { version = "*", features = ["bundled"] }
serde = { version = "*", features = ["derive"] }
serde_json = "*"
tempfile = "*"
tokenizers = "*"
tokio = { version = "*", features = ["rt-multi-thread", "macros", "sync", "time"] }
tokio-util = "*"
uuid = { version = "*", features = ["v4"] }
walkdir = "*"
