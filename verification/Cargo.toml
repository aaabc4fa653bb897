[package]
name = "wonder_of_u"
version = "0.1.0"
edition = "2021"
publish = false

[dependencies]
chrono = "0.4"
serde = { version = "1", features = ["derive"] }
serde_json = "1"
hound = "3"
lindera = { version = "*", default-features = false }
