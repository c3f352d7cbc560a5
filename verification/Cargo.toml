[package]
name = "stl2lnas"
version = "0.4.0"
edition = "2021"
publish = false

[dependencies]
base64 = "0.21"
rustc_apfloat = "0.2"
clap = { version = "4", features = ["derive"] }
