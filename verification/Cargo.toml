[package]
name = "mlt"
version = "0.1.0"
edition = "2021"
publish = false

[dependencies]
bytemuck = "1"
geo-types = "0.7"
geo = "*"
serde = { version = "1", features = ["derive"] }
num_enum = "*"
strum = { version = "*", features = ["derive"] }
diplomat = "*"
diplomat-runtime = "*"
