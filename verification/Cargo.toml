[package]
name = "mattis"
version = "0.1.0"
edition = "2021"
publish = false

[dependencies]
smallvec = "1"
rand = "0.8"
clap = { version = "4", features = ["derive"] }
bus = "2"
thiserror = "1"
bytemuck = { version = "1", features = ["derive"] }
