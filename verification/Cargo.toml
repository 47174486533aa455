[package]
name = "mediatime"
version = "0.1.10"
edition = "2021"
publish = false

[dependencies]
buffa = "0.9"
serde = { version = "1", features = ["derive"] }
arbitrary = "1"
quickcheck = "1"
