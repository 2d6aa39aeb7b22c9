[package]
name = "mcconvert_core"
version = "0.1.0"
edition = "2021"
publish = false

[dependencies]
clap = { version = "4", features = ["derive"] }
fastanvil = "*"
fastnbt = "2"
flate2 = "1"
rayon = "1"
serde_json = "1"
thiserror = "*"
