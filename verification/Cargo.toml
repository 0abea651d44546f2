[package]
name = "tbuck"
version = "0.1.0"
edition = "2021"
publish = false

[dependencies]
chrono = { version = "=0.4.45", default-features = false, features = ["std"] }
clap = "=2.34.0"
hashbrown = "=0.5.0"
regex = "=1.13.1"
