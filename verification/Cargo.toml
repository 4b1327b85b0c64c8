[package]
name = "helix-extensions"
version = "0.1.0"
edition = "2021"
publish = false

[dependencies]
anyhow = "=1.0.104"
base64 = "=0.22.1"
bzip2 = "=0.6.1"
flate2 = "=1.1.10"
log = "=0.4.35"
regex = "=1.13.1"
serde_json = "1"
steel-core = { version = "=0.8.3", features = ["anyhow", "sync"] }
tar = "=0.4.46"
tokio = { version = "=1.54.1", features = ["rt"] }
unicode-segmentation = "=1.13.3"
unicode-width = "=0.1.14"
xz2 = "=0.1.7"
zip = { version = "=9.2.2", default-features = false, features = ["deflate", "bzip2", "zstd"] }
zstd = "=0.13.4"
