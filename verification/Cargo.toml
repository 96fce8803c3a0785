[package]
name = "tabreport"
version = "0.1.0"
edition = "2021"
publish = false

[dependencies]
dbus = "*"
dbus-crossroads = "*"
ctrlc = "*"
serde = { version = "*", features = ["derive"] }
serde_json = "*"
