[package]
name = "magenta-dj"
version = "0.1.0"
edition = "2021"
publish = false

[dependencies]
rand = "*"
serde = { version = "*", features = ["derive"] }
serde_json = "*"
trash = "*"
rustfft = "*"
symphonia = "*"
rubato = "*"
