[package]
name = "physical"
version = "0.1.0"
edition = "2021"
publish = false

[dependencies]
flate2 = "1"
glam = { version = "*", features = ["serde"] }
serde = { version = "1", features = ["derive"] }
serde_json = "1"
slotmap = { version = "1", features = ["serde"] }
zip = { version = "*", default-features = false, features = ["deflate"] }
