[package]
name = "input_synth"
version = "0.1.0"
edition = "2021"
publish = false

[dependencies]
thiserror = "1"
x11rb = { version = "*", features = ["allow-unsafe-code", "xkb", "xtest", "xinput"] }
xkbcommon = { version = "*", features = ["x11"] }
