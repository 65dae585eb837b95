[package]
name = "joyride"
version = "0.1.0"
edition = "2021"
publish = false

[dependencies]
log = "0.4"
block2 = "*"
objc2 = "*"
objc2-foundation = "*"
objc2-app-kit = "*"
objc2-game-controller = "*"
core-foundation = "*"
core-graphics = "*"
accessibility-sys = "*"
