[package]
name = "keyclack"
version = "0.1.0"
edition = "2021"
publish = false

[dependencies]
core-foundation = "0.10"
core-graphics = "0.24"
cpal = "0.15"
crossbeam-channel = "0.5"
directories = "5"
env_logger = "0.11"
global-hotkey = "0.6"
hound = "3"
log = "0.4"
serde = { version = "1", features = ["derive"] }
serde_json = "1"
