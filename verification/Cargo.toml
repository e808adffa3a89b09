[package]
name = "layout_helpers"
version = "0.1.0"
edition = "2021"
publish = false

[dependencies]
bumpalo = { version = "=3.20.3", features = ["collections"] }
inkwell = { version = "=0.2.0", features = ["llvm15-0"] }
proc-macro2 = "1"
quote = "1"
syn = { version = "=1.0.109", features = ["full"] }
