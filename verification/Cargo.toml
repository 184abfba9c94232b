[package]
name = "chess_study"
version = "0.1.0"
edition = "2021"
publish = false

[dependencies]
anyhow = "1"
printpdf = { version = "0.7", features = ["embedded_images"] }
reqwest = { version = "0.12", default-features = false, features = ["blocking", "rustls-tls"] }
tiny-skia = "0.11"
