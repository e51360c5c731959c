[package]
name = "treader"
version = "0.1.0"
edition = "2021"
publish = false

[dependencies]
anyhow = "=1.0.104"
crossterm = "=0.29.0"
directories = "=6.0.0"
flume = "=0.12.0"
futures-util = "=0.3.34"
image = { version = "=0.25.10", default-features = false }
kittage = { version = "=0.3.4", features = ["image-crate"] }
log = "=0.4.35"
md-5 = "=0.10.6"
mupdf = { version = "=0.8.0", default-features = false, features = ["epub", "xps", "cbz", "html", "img", "svg", "base14-fonts"] }
nix = "=0.31.3"
rayon = "=1.12.0"
serde = { version = "=1.0.229", features = ["derive"] }
serde_json = "=1.0.154"
tokio = { version = "=1.54.1", features = ["rt"] }
