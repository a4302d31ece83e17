[package]
name = "sl_viewer"
version = "0.1.0"
edition = "2021"
publish = false

[dependencies]
md5 = "*"
flate2 = "*"
image = { version = "*", default-features = false, features = ["png", "jpeg", "bmp", "tga", "gif"] }
jpeg2k = "*"
justjp2 = "*"
gltf = "*"
rusqlite = { version = "*", features = ["bundled"] }
serde = { version = "*", features = ["derive"] }
serde_json = "*"
anyhow = "*"
thiserror = "*"
dotenvy = "*"
tracing = "*"
tracing-subscriber = "*"
