[package]
name = "ac_compiler"
version = "0.1.0"
edition = "2021"
publish = false

[dependencies]
anyhow = "=1.0.104"
inkwell = { version = "=0.2.0", features = ["llvm14-0"] }
llvm-sys = { version = "=140.1.3", features = ["prefer-dynamic"] }
pest = "=2.9.4"
pest_derive = "=2.9.4"
walkdir = "=2.5.0"
