[package]
name = "coconut"
version = "0.1.0"
edition = "2021"
publish = false

[dependencies]
toml = "0.8"
serde = { version = "1", features = ["derive"] }
serde_json = "1"
dbus = "0.9"
image = { version = "0.25", default-features = false, features = ["jpeg", "png"] }
