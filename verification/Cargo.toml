[package]
name = "kaleidrs"
version = "0.1.0"
edition = "2021"
publish = false

[dependencies]
clap = { version = "=4.6.7", features = ["derive"] }
inkwell = { version = "=0.5.0", features = ["llvm14-0-force-dynamic"] }
thiserror = "=1.0.69"
