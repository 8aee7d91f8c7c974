[package]
name = "bcut"
version = "0.1.0"
edition = "2021"
publish = false

[dependencies]
anyhow = "1"
clap = { version = "4", features = ["derive"] }
hexyl = "*"
rustix = { version = "*", features = ["fs", "stdio"] }
thiserror = "*"
