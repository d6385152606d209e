[package]
name = "fbconsole"
version = "0.1.0"
edition = "2021"
publish = false

[dependencies]
lazy_static = { version = "=1.5.1", features = ["spin_no_std"] }
limine = "=0.5.0"
spin = "=0.9.9"
