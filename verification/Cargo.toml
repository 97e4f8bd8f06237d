[package]
name = "revyos_imager"
version = "0.1.0"
edition = "2021"
publish = false

[dependencies]
android-sparse-image = "*"
fastboot-protocol = "*"
scraper = "*"
anyhow = "1"
tokio = { version = "1", features = ["fs", "io-util"] }
reqwest = { version = "0.12", features = ["stream"] }
futures-lite = "2"
async-compression = { version = "0.4", features = ["tokio", "zstd"] }
serde = { version = "1", features = ["derive"] }
nusb = "*"
