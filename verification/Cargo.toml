[package]
name = "nq"
version = "0.1.0"
edition = "2021"
publish = false

[dependencies]
anyhow = "1"
clap = { version = "4", features = ["derive"] }
fs2 = "0.4"
libc = "0.2"
thiserror = "2"
