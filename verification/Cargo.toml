[package]
name = "edtui-jagged"
version = "0.1.9"
edition = "2021"

[dependencies]
arbitrary = { version = "1", features = ["derive"] }
libfuzzer-sys = "0.4"
