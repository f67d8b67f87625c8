[package]
name = "tola"
version = "0.1.0"
edition = "2021"
publish = false

[dependencies]
anyhow = "1"
axum = "*"
clap = { version = "4", features = ["derive"] }
colored = "*"
crossterm = "*"
minify-html = "*"
notify = "*"
rayon = "1"
tokio = { version = "1", features = ["full"] }
tower-http = { version = "*", features = ["fs"] }
