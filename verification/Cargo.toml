[package]
name = "jamalang"
version = "0.1.0"
edition = "2021"
publish = false

[dependencies]
anyhow = "=1.0.104"
clap = { version = "=4.6.7", features = ["derive"] }
either = "=1.19.0"
inkwell = { version = "=0.2.0", features = ["llvm14-0"] }
llvm-sys = { version = "=140.1.3", features = ["prefer-dynamic"] }
pest = "2"
